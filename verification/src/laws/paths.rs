//! Files on disk and on screen: their names, where they land, how large they are.

use vstd::prelude::*;
use vstd::string::*;
use vstd::utf8::*;

use crate::files::{
    corrupt_name, file_name_of, first_free, hex_digit, hex_text, human_text, invisible, joined,
    kept_name, last_dot, last_part, name_fault, nearest, numbered, offer_fault, partial_name,
    resumable, scaled, separator, shown_text, stem_len, thousandth, to_53_bits, widened,
    FileError,
};
use crate::laws::words::{phrase, trimming_takes_only_the_ends};
use crate::text::{decimal_back, decimal_text, digits_value};

verus! {

// --- names ----------------------------------------------------------------------------

/// A text from the network is shown as it is, but for what would steer the terminal: control
/// characters and those that reorder text become a mark, one for one.
pub proof fn only_what_steers_is_replaced(s: Seq<char>, i: int)
    requires
        0 <= i < s.len(),
    ensures
        shown_text(s).len() == s.len(),
        ({
            let n = s[i] as u32;
            &&& 0x20 <= n < 0x7f || 0xa0 <= n < 0x600 || 0x2070 <= n ==> shown_text(s)[i] == s[i]
            &&& n < 0x20 || 0x7f <= n < 0xa0 || 0x200e <= n <= 0x200f || 0x202a <= n <= 0x202e
                || 0x2066 <= n <= 0x2069 || n == 0x61c ==> shown_text(s)[i] as u32 == 0xfffd
            &&& shown_text(s)[i] == s[i] || shown_text(s)[i] as u32 == 0xfffd
        }),
{
}

/// Of a name that is a path, what stands behind the last separator is kept, whichever way the
/// separators lean, and the white space around it is not.
pub proof fn a_name_is_the_end_of_its_path(dir: Seq<char>, name: Seq<char>)
    requires
        phrase(name),
        forall|i: int| 0 <= i < name.len() ==> name[i] != '/' && name[i] != '\\',
    ensures
        kept_name(name) == name,
        kept_name(dir + "/"@ + name) == name,
        kept_name(dir + "\\"@ + name) == name,
        kept_name(dir + "/"@ + " "@ + name + " "@) == name,
{
    reveal_strlit("/");
    reveal_strlit("\\");
    reveal_strlit(" ");
    let e = Seq::<char>::empty();
    trimming_takes_only_the_ends(e, name, e);
    assert(e + name + e =~= name);
    end_of(e, name);
    assert(e + name =~= name);
    end_of(dir + "/"@, name);
    end_of(dir + "\\"@, name);
    let gap = " "@;
    assert(gap[0] as u32 == 0x20);
    let padded = gap + name + gap;
    assert forall|i: int| 0 <= i < padded.len() implies !separator(#[trigger] padded[i]) by {
        if 1 <= i < 1 + name.len() {
            assert(padded[i] == name[i - 1]);
        } else {
            assert(padded[i] == ' ');
        }
    }
    end_of(dir + "/"@, padded);
    assert(dir + "/"@ + padded =~= dir + "/"@ + " "@ + name + " "@);
    trimming_takes_only_the_ends(gap, name, gap);
}

proof fn end_of(dir: Seq<char>, name: Seq<char>)
    requires
        forall|i: int| 0 <= i < name.len() ==> !separator(#[trigger] name[i]),
        dir.len() == 0 || separator(dir.last()),
    ensures
        last_part(dir + name) == name,
    decreases name.len(),
{
    let s = dir + name;
    if name.len() == 0 {
        assert(s =~= dir);
        assert(last_part(dir) =~= name);
    } else {
        assert(!separator(name[name.len() - 1]));
        assert(s.last() == name.last());
        assert(s.drop_last() =~= dir + name.drop_last());
        end_of(dir, name.drop_last());
        assert(name.drop_last().push(name.last()) =~= name);
    }
}

/// Which names are kept: some text of at most 255 bytes that is not one of the two that mean a
/// directory, holds nothing invisible, and no colon.
pub proof fn which_names_are_kept(name: Seq<char>)
    ensures
        name_fault(name) is None <==> {
            &&& name.len() > 0
            &&& name != "."@
            &&& name != ".."@
            &&& encode_utf8(name).len() <= 255
            &&& forall|i: int| 0 <= i < name.len() ==> !invisible(#[trigger] name[i])
            &&& !name.contains(':')
        },
{
}

/// A file in a directory is offered by its own name.
pub proof fn a_file_is_offered_by_its_name(dir: Seq<char>, name: Seq<char>)
    requires
        name.len() > 0,
        forall|i: int| 0 <= i < name.len() ==> name[i] != '/',
        name != "."@,
        name != ".."@,
    ensures
        file_name_of(dir + "/"@ + name) == Some(name),
        file_name_of(name) == Some(name),
{
    reveal_strlit("/");
    let e = Seq::<char>::empty();
    behind(dir + "/"@, name);
    behind(e, name);
    assert(e + name =~= name);
    assert((dir + "/"@ + name).last() == name.last());
}

proof fn behind(dir: Seq<char>, name: Seq<char>)
    requires
        forall|i: int| 0 <= i < name.len() ==> name[i] != '/',
        dir.len() == 0 || dir.last() == '/',
    ensures
        crate::files::behind_slash(dir + name) == name,
    decreases name.len(),
{
    let s = dir + name;
    if name.len() == 0 {
        assert(s =~= dir);
        assert(crate::files::behind_slash(dir) =~= name);
    } else {
        assert(s.last() == name.last());
        assert(s.drop_last() =~= dir + name.drop_last());
        behind(dir, name.drop_last());
        assert(name.drop_last().push(name.last()) =~= name);
    }
}

/// What may be offered: a file with something in it, of at most two gibibytes, under a name of
/// at most 255 bytes. What is said to be wrong with any other is what is wrong with it.
pub proof fn what_may_be_offered(path: Seq<char>, is_dir: bool, size: u64)
    ensures
        offer_fault(path, is_dir, size) is None <==> {
            &&& !is_dir
            &&& 1 <= size <= 0x8000_0000
            &&& file_name_of(path) is Some
            &&& encode_utf8(file_name_of(path)->0).len() <= 255
        },
        offer_fault(path, is_dir, size) == Some(FileError::Directory) <==> is_dir,
        offer_fault(path, is_dir, size) == Some(FileError::Empty) <==> !is_dir && size == 0,
        offer_fault(path, is_dir, size) == Some(FileError::TooLarge(size)) <==> !is_dir && size
            > 0x8000_0000,
{
}

// --- landing --------------------------------------------------------------------------

/// A path is the directory, one slash, and the name.
pub proof fn a_path_is_directory_and_name(dir: Seq<char>, name: Seq<char>)
    requires
        dir.len() > 0,
        dir.last() != '/',
        name.len() > 0,
        name[0] != '/',
    ensures
        joined(dir, name) == dir + seq!['/'] + name,
        joined(dir + seq!['/'], name) == dir + seq!['/'] + name,
        joined(dir, seq!['/'] + name) == seq!['/'] + name,
{
    reveal_strlit("/");
    assert("/"@ =~= seq!['/']);
    assert((dir + seq!['/']).last() == '/');
    assert((seq!['/'] + name)[0] == '/');
}

/// A number goes before the extension of a name, and to the end of a name that has none.
pub proof fn a_number_goes_before_the_extension(stem: Seq<char>, ext: Seq<char>, n: nat)
    requires
        stem.len() > 0,
        n >= 2,
        forall|i: int| 0 <= i < ext.len() ==> ext[i] != '.',
    ensures
        numbered(stem + seq!['.'] + ext, n) == stem + " ("@ + decimal_text(n) + ")"@ + seq!['.']
            + ext,
        ext.len() > 0 ==> numbered(ext, n) == ext + " ("@ + decimal_text(n) + ")"@,
        numbered(seq!['.'] + ext, n) == seq!['.'] + ext + " ("@ + decimal_text(n) + ")"@,
        numbered(stem, 1) == stem,
{
    let e = Seq::<char>::empty();
    let tail = " ("@ + decimal_text(n) + ")"@;
    let a = stem + seq!['.'] + ext;
    dot_is_at(stem, ext);
    assert(a.take(stem.len() as int) =~= stem);
    assert(a.skip(stem.len() as int) =~= seq!['.'] + ext);
    assert(numbered(a, n) =~= stem + " ("@ + decimal_text(n) + ")"@ + seq!['.'] + ext);
    no_dot(ext);
    assert(ext.take(ext.len() as int) =~= ext);
    assert(ext.skip(ext.len() as int) =~= e);
    assert(numbered(ext, n) =~= ext + " ("@ + decimal_text(n) + ")"@);
    let h = seq!['.'] + ext;
    dot_is_at(e, ext);
    assert(e + seq!['.'] + ext =~= h);
    assert(h.take(h.len() as int) =~= h);
    assert(h.skip(h.len() as int) =~= e);
    assert(numbered(h, n) =~= h + " ("@ + decimal_text(n) + ")"@);
}

proof fn dot_is_at(stem: Seq<char>, ext: Seq<char>)
    requires
        forall|i: int| 0 <= i < ext.len() ==> ext[i] != '.',
    ensures
        last_dot(stem + seq!['.'] + ext) == Some(stem.len()),
    decreases ext.len(),
{
    let s = stem + seq!['.'] + ext;
    if ext.len() > 0 {
        assert(s.last() == ext.last());
        assert(s.drop_last() =~= stem + seq!['.'] + ext.drop_last());
        dot_is_at(stem, ext.drop_last());
    } else {
        assert(s.last() == '.');
    }
}

proof fn no_dot(s: Seq<char>)
    requires
        forall|i: int| 0 <= i < s.len() ==> s[i] != '.',
    ensures
        last_dot(s) is None,
    decreases s.len(),
{
    if s.len() > 0 {
        no_dot(s.drop_last());
    }
}

/// No two of the names that are tried are the same.
pub proof fn no_name_is_tried_twice(name: Seq<char>, m: nat, n: nat)
    requires
        1 <= m < n,
    ensures
        numbered(name, m) != numbered(name, n),
{
    reveal_strlit(" (");
    reveal_strlit(")");
    let k = stem_len(name) as int;
    stem_is_inside(name);
    let a = numbered(name, m);
    let b = numbered(name, n);
    decimal_back(m);
    decimal_back(n);
    let tail = name.len() - k;
    assert(b.len() == name.len() + 3 + decimal_text(n).len());
    if m > 1 && a == b {
        assert(a.len() == name.len() + 3 + decimal_text(m).len());
        assert(a.subrange(k + 2, k + 2 + decimal_text(m).len()) =~= decimal_text(m));
        assert(b.subrange(k + 2, k + 2 + decimal_text(n).len()) =~= decimal_text(n));
        assert(digits_value(decimal_text(m)) == digits_value(decimal_text(n)));
    }
}

proof fn stem_is_inside(name: Seq<char>)
    ensures
        stem_len(name) <= name.len(),
{
    dot_is_inside(name);
}

proof fn dot_is_inside(s: Seq<char>)
    ensures
        last_dot(s) is Some ==> last_dot(s)->0 < s.len(),
    decreases s.len(),
{
    if s.len() > 0 {
        dot_is_inside(s.drop_last());
    }
}

/// The first place that is free is taken, and the plain name where nothing is there yet.
pub proof fn the_first_free_place_is_taken(taken: Seq<bool>, k: nat)
    requires
        k < 999,
        k >= taken.len() || !taken[k as int],
        k <= taken.len(),
        forall|j: int| 0 <= j < k ==> #[trigger] taken[j],
    ensures
        first_free(taken, 0) == k + 1,
{
    first_is(taken, 0, k);
}

proof fn first_is(taken: Seq<bool>, from: nat, k: nat)
    requires
        from <= k < 999,
        k >= taken.len() || !taken[k as int],
        k <= taken.len(),
        forall|j: int| 0 <= j < k ==> #[trigger] taken[j],
    ensures
        first_free(taken, from) == k + 1,
    decreases k - from,
{
    if from < k {
        assert(taken[from as int]);
        first_is(taken, from + 1, k);
    }
}

/// A transfer goes on where what is on disk ends, and begins anew where that is no part of the
/// file.
pub proof fn a_transfer_goes_on_where_it_stopped(len: u64, size: u64)
    ensures
        len < size ==> resumable(Some(len), size) == len,
        len >= size ==> resumable(Some(len), size) == 0,
        resumable(None, size) == 0,
{
}

/// The value of a hexadecimal digit.
pub open spec fn hex_value(c: char) -> int {
    let n = c as u32 as int;
    if 48 <= n <= 57 {
        n - 48
    } else if 97 <= n <= 102 {
        n - 87
    } else {
        -1
    }
}

/// A byte is written as two digits, the upper half first, in the order of the bytes.
pub proof fn bytes_are_written_in_order(b: Seq<u8>, i: int)
    requires
        0 <= i < b.len(),
    ensures
        hex_text(b).len() == 2 * b.len(),
        0 <= hex_value(hex_text(b)[2 * i]) < 16,
        0 <= hex_value(hex_text(b)[2 * i + 1]) < 16,
        hex_value(hex_text(b)[2 * i]) * 16 + hex_value(hex_text(b)[2 * i + 1]) == b[i],
    decreases b.len(),
{
    let t = b.drop_last();
    if t.len() > 0 {
        if i < t.len() {
            bytes_are_written_in_order(t, i);
        } else {
            bytes_are_written_in_order(t, 0);
        }
    }
    let v = b.last() as nat;
    assert(t.len() == 0 ==> hex_text(t).len() == 0);
    assert(hex_text(b) == hex_text(t).push(hex_digit(v / 16)).push(hex_digit(v % 16)));
    if i < t.len() {
        assert(b[i] == t[i]);
        assert(hex_text(b)[2 * i] == hex_text(t)[2 * i]);
        assert(hex_text(b)[2 * i + 1] == hex_text(t)[2 * i + 1]);
    }
    digit_has_its_value(v / 16);
    digit_has_its_value(v % 16);
}

proof fn digit_has_its_value(n: nat)
    requires
        n < 16,
    ensures
        hex_value(hex_digit(n)) == n,
{
    if n < 10 {
        assert(hex_digit(n) as u32 == 48 + n);
    } else {
        assert(hex_digit(n) as u32 == 87 + n);
    }
}

/// Files that differ in the first half of their digest are never written to the same place, and
/// what is incomplete is never taken for what is corrupt.
pub proof fn partials_are_kept_apart(a: Seq<u8>, b: Seq<u8>)
    requires
        a.len() == 32,
        b.len() == 32,
    ensures
        a.take(16) != b.take(16) ==> partial_name(a) != partial_name(b),
        a.take(16) != b.take(16) ==> corrupt_name(a) != corrupt_name(b),
        a.take(16) == b.take(16) ==> partial_name(a) == partial_name(b),
        partial_name(a) != corrupt_name(b),
{
    reveal_strlit(".part");
    reveal_strlit(".corrupt");
    let (x, y) = (a.take(16), b.take(16));
    bytes_are_written_in_order(x, 0);
    bytes_are_written_in_order(y, 0);
    assert(partial_name(a).len() == 37 && corrupt_name(b).len() == 40);
    if x != y {
        assert(exists|i: int| 0 <= i < 16 && x[i] != y[i]) by {
            if forall|i: int| 0 <= i < 16 ==> x[i] == y[i] {
                assert(x =~= y);
            }
        }
        let i = choose|i: int| 0 <= i < 16 && x[i] != y[i];
        bytes_are_written_in_order(x, i);
        bytes_are_written_in_order(y, i);
        let (p, q) = (hex_text(x), hex_text(y));
        assert(p[2 * i] != q[2 * i] || p[2 * i + 1] != q[2 * i + 1]);
        assert(partial_name(a)[2 * i] == p[2 * i] && partial_name(b)[2 * i] == q[2 * i]);
        assert(partial_name(a)[2 * i + 1] == p[2 * i + 1] && partial_name(b)[2 * i + 1]
            == q[2 * i + 1]);
        assert(corrupt_name(a)[2 * i] == p[2 * i] && corrupt_name(b)[2 * i] == q[2 * i]);
        assert(corrupt_name(a)[2 * i + 1] == p[2 * i + 1] && corrupt_name(b)[2 * i + 1]
            == q[2 * i + 1]);
    }
}

// --- sizes ----------------------------------------------------------------------------

/// What is nearest is at most half away.
pub proof fn nearest_is_at_most_half_away(n: nat, k: nat)
    requires
        k > 0,
    ensures
        2 * (k * nearest(n, k) - n) <= k,
        2 * (n - k * nearest(n, k)) <= k,
{
    let q = n / k;
    let r = n % k;
    assert(n == k * q + r && 0 <= r < k) by (nonlinear_arith)
        requires
            k > 0,
            q == n / k,
            r == n % k,
    ;
    assert(k * (q + 1) == k * q + k) by (nonlinear_arith);
}

/// A size of some thousand bytes is told in kilobytes, to the nearest tenth of one.
pub proof fn a_size_is_told_to_the_nearest_tenth(bytes: u64)
    requires
        1000 <= bytes < 1_000_000,
    ensures
        exists|t: nat| #[trigger]
            decimal_text(t / 10) + "."@ + decimal_text(t % 10) + " kB"@ == human_text(bytes) && -50
                <= 100 * t - bytes <= 50,
{
    let b = bytes as nat;
    assert(b / 1 == b && b % 1 == 0);
    assert(to_53_bits(b, 1) == b) by {
        assert(nearest(b, 1) == b);
    }
    let (n, d) = widened(b, 1);
    widening_keeps_the_fraction(b, 1);
    assert(n == b * d);
    let m = nearest(n, 1000);
    nearest_is_at_most_half_away(n, 1000);
    assert(n / 1000 < 0x20_0000_0000_0000);
    assert(thousandth(b, 1) == (m, d));
    assert(d > 1000) by (nonlinear_arith)
        requires
            n == b * d,
            n >= 4503599627370496000,
            b < 1_000_000,
    ;
    assert(b * d <= 999_999 * d) by (nonlinear_arith)
        requires
            b <= 999_999,
            d > 0,
    ;
    assert(m < 1000 * d);
    assert(scaled(m, d, 1) == (m, d, 1nat));
    assert(scaled(b, 1, 0) == (m, d, 1nat));
    let t = nearest(10 * m, d);
    nearest_is_at_most_half_away(10 * m, d);
    let p = d * t;
    assert(2 * (p - 10 * m) <= d && 2 * (10 * m - p) <= d);
    assert(1000 * p - 10 * n <= 500 * d + 5000 && 10 * n - 1000 * p <= 500 * d + 5000);
    assert(-50 <= 100 * t - b <= 50) by (nonlinear_arith)
        requires
            1000 * p - 10 * n <= 500 * d + 5000,
            10 * n - 1000 * p <= 500 * d + 5000,
            p == d * t,
            n == b * d,
            d > 1000,
    ;
    assert(decimal_text(t / 10) + "."@ + decimal_text(t % 10) + " kB"@ == human_text(bytes));
}

proof fn widening_keeps_the_fraction(num: nat, den: nat)
    requires
        num > 0,
        den > 0,
        num < 4503599627370496000,
    ensures
        ({
            let (n, d) = widened(num, den);
            &&& n * den == num * d
            &&& 4503599627370496000 <= n < 9007199254740992000
            &&& d >= den
        }),
    decreases 4503599627370496000 - num,
{
    let (n, d) = widened(num, den);
    if 2 * num < 4503599627370496000 {
        widening_keeps_the_fraction(2 * num, 2 * den);
        assert(n * den == num * d) by (nonlinear_arith)
            requires
                n * (2 * den) == (2 * num) * d,
        ;
    } else {
        assert(widened(2 * num, 2 * den) == (2 * num, 2 * den));
        assert(n * den == num * d) by (nonlinear_arith)
            requires
                n == 2 * num,
                d == 2 * den,
        ;
    }
}

} // verus!
