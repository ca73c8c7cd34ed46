//! Files: what may be offered, under which name one lands, and where.
//!
//! A transfer is named after the BLAKE3 digest of the whole file. The partial file carries
//! that name too, so a resumed transfer can only append to bytes of the same file.

use vstd::prelude::*;
use vstd::string::*;
use vstd::utf8::*;

use crate::bytes::equal;
use crate::crypto;
use crate::crypto::{blake3_digest, hashed_so_far};
use crate::proto::{utf8_len, MAX_NAME};
use crate::text::{
    chars, control, decimal, decimal_text, digit, is_control, piece, quoted, quoted_text, trim,
    trimmed,
};

verus! {

/// Largest file murmure will offer or accept, in bytes: 2 GiB.
pub const MAX_FILE: u64 = 2147483648;

/// How many bytes to hash at a time when reading a file from disk.
pub const HASH_BUF: usize = 65536;

/// What a peer needs to know about a file before deciding to take it.
#[derive(Clone, Debug, PartialEq, Eq)]
pub struct Offer {
    /// The name as it will be shown, already stripped of any path.
    pub name: String,
    pub size: u64,
    /// BLAKE3 of the whole file.
    pub hash: [u8; 32],
}

/// An offer by its values.
#[verifier::ext_equal]
pub struct OfferView {
    pub name: Seq<char>,
    pub size: u64,
    pub hash: Seq<u8>,
}

impl View for Offer {
    type V = OfferView;

    open spec fn view(&self) -> OfferView {
        OfferView { name: self.name@, size: self.size, hash: self.hash@ }
    }
}

impl Offer {
    /// Another copy of an offer.
    pub fn copy(&self) -> (r: Offer)
        ensures
            r@ == self@,
    {
        Offer { name: self.name.clone(), size: self.size, hash: self.hash }
    }
}

// --- sizes a person reads -------------------------------------------------------------

/// A quotient to the nearest whole number; of two equally near, the even one.
pub open spec fn nearest(n: nat, k: nat) -> nat {
    let q = n / k;
    let r = n % k;
    if 2 * r < k || (2 * r == k && q % 2 == 0) {
        q
    } else {
        q + 1
    }
}

/// A number to the 53 significant bits of a binary64, where it has more.
pub open spec fn to_53_bits(n: nat, unit: nat) -> nat
    decreases 4096 - unit,
    when 0 < unit < 4096
{
    if unit >= 2048 || n / unit < 0x20_0000_0000_0000 {
        unit * nearest(n, unit)
    } else {
        to_53_bits(n, 2 * unit)
    }
}

/// A fraction over a power of two, with a numerator large enough that a thousandth of it
/// has 53 significant bits.
pub open spec fn widened(num: nat, den: nat) -> (nat, nat)
    decreases
            if num >= 4503599627370496000 {
                0
            } else {
                4503599627370496000 - num
            },
    when num > 0
{
    if num >= 4503599627370496000 {
        (num, den)
    } else {
        widened(2 * num, 2 * den)
    }
}

/// A thousandth of a binary64 fraction, again as a binary64.
pub open spec fn thousandth(num: nat, den: nat) -> (nat, nat) {
    let (n, d) = widened(num, den);
    if n / 1000 < 0x20_0000_0000_0000 {
        (nearest(n, 1000), d)
    } else if n / 1000 < 0x40_0000_0000_0000 {
        (2 * nearest(n, 2000), d)
    } else {
        (4 * nearest(n, 4000), d)
    }
}

/// Divide by a thousand until what is left is below a thousand, or the units run out.
pub open spec fn scaled(num: nat, den: nat, unit: nat) -> (nat, nat, nat)
    decreases 3 - unit,
{
    if unit < 3 && num >= 1000 * den {
        let (n, d) = thousandth(num, den);
        scaled(n, d, unit + 1)
    } else {
        (num, den, unit)
    }
}

/// The name of a unit.
pub open spec fn unit_name(unit: nat) -> Seq<char> {
    if unit == 1 {
        " kB"@
    } else if unit == 2 {
        " MB"@
    } else {
        " GB"@
    }
}

/// Bytes, in a form a person reads without counting digits: whole below a thousand, else to
/// one decimal place of the binary64 that dividing by thousands leaves.
pub open spec fn human_text(bytes: u64) -> Seq<char> {
    if bytes < 1000 {
        decimal_text(bytes as nat) + " B"@
    } else {
        let (num, den, unit) = scaled(to_53_bits(bytes as nat, 1), 1, 0);
        let tenths = nearest(10 * num, den);
        decimal_text(tenths / 10) + "."@ + decimal_text(tenths % 10) + unit_name(unit)
    }
}

fn nearest_of(n: u128, k: u128) -> (r: u128)
    requires
        0 < k < 0x2_0000_0000_0000_0000,
        n < 0x1_0000_0000_0000_0000_0000_0000_0000,
    ensures
        r == nearest(n as nat, k as nat),
{
    let q: u128 = n / k;
    let rest: u128 = n % k;
    if 2 * rest < k || (2 * rest == k && q % 2 == 0) {
        q
    } else {
        q + 1
    }
}

fn round_to_53_bits(n: u64) -> (r: u128)
    ensures
        r == to_53_bits(n as nat, 1),
        n >= 1000 ==> 1000 <= r < 0x2_0000_0000_0000_0000,
{
    let mut unit: u128 = 1;
    let wide: u128 = n as u128;
    while wide / unit >= 0x20_0000_0000_0000
        invariant
            wide == n,
            1 <= unit < 4096,
            unit > 1 ==> wide / (unit / 2) >= 0x20_0000_0000_0000,
            unit > 1 ==> unit % 2 == 0,
            to_53_bits(n as nat, 1) == to_53_bits(n as nat, unit as nat),
        decreases 4096 - unit,
    {
        assert(unit < 2048) by (nonlinear_arith)
            requires
                wide / unit >= 0x20_0000_0000_0000,
                wide <= 0xffff_ffff_ffff_ffff,
                unit >= 1,
        ;
        unit = 2 * unit;
    }
    let m = nearest_of(wide, unit);
    proof {
        assert(m <= 0x20_0000_0000_0000);
        assert(unit * m <= 4095 * 0x20_0000_0000_0000) by (nonlinear_arith)
            requires
                unit <= 4095,
                m <= 0x20_0000_0000_0000,
        ;
        if unit == 1 {
            assert(wide / 1 == wide);
            assert(m == wide);
            assert(unit * m == m) by (nonlinear_arith)
                requires
                    unit == 1,
            ;
        } else {
            let h = unit / 2;
            assert(wide >= 0x20_0000_0000_0000) by (nonlinear_arith)
                requires
                    wide / h >= 0x20_0000_0000_0000,
                    h >= 1,
            ;
            assert(wide / unit >= 0x10_0000_0000_0000 - 1) by (nonlinear_arith)
                requires
                    wide / h >= 0x20_0000_0000_0000,
                    unit == 2 * h,
                    h >= 1,
            ;
            assert(unit * m >= 1000) by (nonlinear_arith)
                requires
                    m >= 0x10_0000_0000_0000 - 1,
                    unit >= 1,
            ;
        }
    }
    unit * m
}

fn widen(num: u128, den: u128) -> (r: (u128, u128))
    requires
        1 <= den <= num < 0x2_0000_0000_0000_0000,
    ensures
        (r.0 as nat, r.1 as nat) == widened(num as nat, den as nat),
        4503599627370496000 <= r.0 < 0x2_0000_0000_0000_0000,
        1 <= r.1 <= r.0,
        num >= 1000 * den ==> r.0 >= 1000 * r.1,
        (r.0 == num && r.1 == den) || r.0 < 9007199254740992000,
{
    let mut n: u128 = num;
    let mut d: u128 = den;
    while n < 4503599627370496000
        invariant
            1 <= d <= n < 0x2_0000_0000_0000_0000,
            widened(num as nat, den as nat) == widened(n as nat, d as nat),
            num >= 1000 * den ==> n >= 1000 * d,
            (n == num && d == den) || n < 9007199254740992000,
        decreases
                if n >= 4503599627370496000 {
                    0
                } else {
                    4503599627370496000 - n
                },
    {
        n = 2 * n;
        d = 2 * d;
    }
    (n, d)
}

fn thousandth_of(num: u128, den: u128) -> (r: (u128, u128))
    requires
        1 <= den,
        1000 * den <= num < 0x2_0000_0000_0000_0000,
        num < 9007199254740992000 || den == 1,
    ensures
        (r.0 as nat, r.1 as nat) == thousandth(num as nat, den as nat),
        1 <= r.1 <= r.0 < 9007199254740992000,
{
    let (n, d) = widen(num, den);
    if n / 1000 < 0x20_0000_0000_0000 {
        (nearest_of(n, 1000), d)
    } else if n / 1000 < 0x40_0000_0000_0000 {
        (2 * nearest_of(n, 2000), d)
    } else {
        (4 * nearest_of(n, 4000), d)
    }
}

/// Bytes, in a form a person reads.
pub fn human(bytes: u64) -> (r: String)
    ensures
        r@ == human_text(bytes),
{
    if bytes < 1000 {
        let mut s = decimal(bytes as u128);
        s.append(" B");
        return s;
    }
    let mut num: u128 = round_to_53_bits(bytes);
    let mut den: u128 = 1;
    let mut unit: u8 = 0;
    while unit < 3 && num >= 1000 * den
        invariant
            unit <= 3,
            1 <= den <= num < 0x2_0000_0000_0000_0000,
            num < 9007199254740992000 || den == 1,
            scaled(to_53_bits(bytes as nat, 1), 1, 0) == scaled(
                num as nat,
                den as nat,
                unit as nat,
            ),
        decreases 3 - unit,
    {
        let (n, d) = thousandth_of(num, den);
        num = n;
        den = d;
        unit = unit + 1;
    }
    let tenths = nearest_of(10 * num, den);
    let mut s = decimal(tenths / 10);
    s.append(".");
    s.append(decimal(tenths % 10).as_str());
    if unit == 1 {
        s.append(" kB");
    } else if unit == 2 {
        s.append(" MB");
    } else {
        s.append(" GB");
    }
    s
}

// --- names and paths ------------------------------------------------------------------

/// Both separators, not just this platform's.
pub open spec fn separator(c: char) -> bool {
    c == '/' || c == '\\'
}

/// The characters that reorder text on screen.
pub open spec fn reorders(c: char) -> bool {
    let n = c as u32;
    n == 0x61c || n == 0x200e || n == 0x200f || 0x202a <= n <= 0x202e || 0x2066 <= n <= 0x2069
}

/// What is displayed differently from what it is.
pub open spec fn invisible(c: char) -> bool {
    control(c) || reorders(c)
}

/// What stands behind the last separator.
pub open spec fn last_part(s: Seq<char>) -> Seq<char>
    decreases s.len(),
{
    if s.len() == 0 {
        s
    } else if separator(s.last()) {
        Seq::empty()
    } else {
        last_part(s.drop_last()).push(s.last())
    }
}

/// Why a peer's filename is refused.
#[derive(Clone, Debug, PartialEq, Eq)]
pub enum NameError {
    /// Nothing of it is a name.
    NotAName,
    /// It is too long; its bytes.
    TooLong(usize),
    /// It would display differently from what it is.
    Invisible,
    /// It is a name on some systems only.
    NotPortable,
}

/// Some character of a text is displayed differently from what it is.
pub open spec fn any_invisible(s: Seq<char>) -> bool {
    exists|i: int| 0 <= i < s.len() && invisible(#[trigger] s[i])
}

/// What is wrong with the last part of a filename, if anything is.
pub open spec fn name_fault(last: Seq<char>) -> Option<NameError> {
    if last.len() == 0 || last == "."@ || last == ".."@ {
        Some(NameError::NotAName)
    } else if utf8_len(last) > MAX_NAME {
        Some(NameError::TooLong(utf8_len(last) as usize))
    } else if any_invisible(last) {
        Some(NameError::Invisible)
    } else if last.contains(':') {
        Some(NameError::NotPortable)
    } else {
        None
    }
}

/// What is left of a peer's filename: its last part, without white space around it.
pub open spec fn kept_name(raw: Seq<char>) -> Seq<char> {
    trim(last_part(raw))
}

impl NameError {
    /// What the operator is told about the filename `raw`.
    pub open spec fn said(self, raw: Seq<char>) -> Seq<char> {
        match self {
            NameError::NotAName => "the peer sent "@ + quoted_text(raw)
                + " as a filename, which is not a name"@,
            NameError::TooLong(n) => "the peer sent a "@ + decimal_text(n as nat)
                + "-byte filename"@,
            NameError::Invisible =>
                "the peer sent a filename containing invisible or reordering characters"@,
            NameError::NotPortable => "the peer sent "@ + quoted_text(kept_name(raw))
                + ", which is not a portable filename"@,
        }
    }

    /// Say why the filename `raw` is refused.
    pub fn describe(&self, raw: &str) -> (r: String)
        ensures
            r@ == self.said(raw@),
    {
        match self {
            NameError::NotAName => {
                let mut s = "the peer sent ".to_owned();
                s.append(quoted(raw).as_str());
                s.append(" as a filename, which is not a name");
                s
            },
            NameError::TooLong(n) => {
                let mut s = "the peer sent a ".to_owned();
                s.append(decimal(*n as u128).as_str());
                s.append("-byte filename");
                s
            },
            NameError::Invisible =>
                "the peer sent a filename containing invisible or reordering characters".to_owned(),
            NameError::NotPortable => {
                let mut s = "the peer sent ".to_owned();
                s.append(quoted(keep_name(raw).as_str()).as_str());
                s.append(", which is not a portable filename");
                s
            },
        }
    }
}

/// Whether a character is displayed differently from what it is.
pub fn is_invisible(c: char) -> (r: bool)
    ensures
        r == invisible(c),
{
    let n: u32 = c as u32;
    is_control(c) || n == 0x61c || n == 0x200e || n == 0x200f || (0x202a <= n && n <= 0x202e) || (
    0x2066 <= n && n <= 0x2069)
}

proof fn last_part_is_behind(s: Seq<char>, i: int)
    requires
        0 <= i <= s.len(),
        i > 0 ==> separator(s[i - 1]),
        forall|j: int| i <= j < s.len() ==> !separator(#[trigger] s[j]),
    ensures
        last_part(s) == s.skip(i),
    decreases s.len(),
{
    if s.len() == i {
        assert(s.skip(i) =~= Seq::empty());
        if i > 0 {
            assert(separator(s.last()));
        } else {
            assert(s =~= Seq::empty());
        }
    } else {
        assert(!separator(s[s.len() - 1]));
        assert forall|j: int| i <= j < s.drop_last().len() implies !separator(
            #[trigger] s.drop_last()[j],
        ) by {
            assert(!separator(s[j]));
        }
        last_part_is_behind(s.drop_last(), i);
        assert(s.drop_last().skip(i).push(s.last()) =~= s.skip(i));
    }
}

/// The last part of a filename, without white space around it.
fn keep_name(raw: &str) -> (r: String)
    ensures
        r@ == kept_name(raw@),
{
    let cs = chars(raw);
    let mut i: usize = cs.len();
    while i > 0 && cs[i - 1] != '/' && cs[i - 1] != '\\'
        invariant
            i <= cs@.len(),
            forall|j: int| i <= j < cs@.len() ==> !separator(#[trigger] cs@[j]),
        decreases i,
    {
        i = i - 1;
    }
    proof {
        last_part_is_behind(cs@, i as int);
    }
    let last = piece(cs.as_slice(), i, cs.len());
    assert(last@ =~= cs@.skip(i as int));
    trimmed(last.as_str())
}

/// Turn a peer-supplied filename into one that is safe to create.
pub fn safe_name(raw: &str) -> (r: Result<String, NameError>)
    ensures
        match r {
            Ok(name) => name@ == kept_name(raw@) && name_fault(kept_name(raw@)) is None,
            Err(e) => name_fault(kept_name(raw@)) == Some(e),
        },
{
    let last = keep_name(raw);
    let cs = chars(last.as_str());
    proof {
        reveal_strlit(".");
        reveal_strlit("..");
    }
    if cs.len() == 0 || (cs.len() == 1 && cs[0] == '.') || (cs.len() == 2 && cs[0] == '.' && cs[1]
        == '.') {
        proof {
            if cs@.len() == 1 {
                assert(last@ =~= "."@);
            } else if cs@.len() == 2 {
                assert(last@ =~= ".."@);
            }
        }
        return Err(NameError::NotAName);
    }
    let n: usize = last.as_str().as_bytes().len();
    if n > MAX_NAME {
        return Err(NameError::TooLong(n));
    }
    let mut colon = false;
    let mut i: usize = 0;
    while i < cs.len()
        invariant
            i <= cs@.len(),
            cs@ == last@,
            last@ == kept_name(raw@),
            last@.len() > 0,
            last@ != "."@,
            last@ != ".."@,
            utf8_len(last@) <= MAX_NAME,
            forall|j: int| 0 <= j < i ==> !invisible(#[trigger] cs@[j]),
            colon == exists|j: int| 0 <= j < i && #[trigger] cs@[j] == ':',
        decreases cs@.len() - i,
    {
        if is_invisible(cs[i]) {
            assert(invisible(last@[i as int]));
            return Err(NameError::Invisible);
        }
        if cs[i] == ':' {
            colon = true;
            assert(cs@[i as int] == ':');
        }
        i = i + 1;
    }
    assert(!any_invisible(last@));
    if colon {
        let ghost j = choose|j: int| 0 <= j < i && #[trigger] cs@[j] == ':';
        assert(last@[j] == ':');
        return Err(NameError::NotPortable);
    }
    assert(!last@.contains(':'));
    Ok(last)
}

/// `dir/name`, as paths are joined: an absolute name stands alone, and no separator is added
/// to one that is already there.
pub open spec fn joined(dir: Seq<char>, name: Seq<char>) -> Seq<char> {
    if name.len() > 0 && name[0] == '/' {
        name
    } else if dir.len() == 0 || dir.last() == '/' {
        dir + name
    } else {
        dir + "/"@ + name
    }
}

/// Join a directory and a name.
pub fn join(dir: &str, name: &str) -> (r: String)
    ensures
        r@ == joined(dir@, name@),
{
    let ds = chars(dir);
    let ns = chars(name);
    if ns.len() > 0 && ns[0] == '/' {
        return name.to_owned();
    }
    let mut s = dir.to_owned();
    if !(ds.len() == 0 || ds[ds.len() - 1] == '/') {
        s.append("/");
    }
    s.append(name);
    s
}

/// One hexadecimal digit, in lower case.
pub open spec fn hex_digit(n: nat) -> char {
    if n < 10 {
        digit(n)
    } else {
        ((87 + n) as u32) as char
    }
}

/// Bytes in hexadecimal.
pub open spec fn hex_text(b: Seq<u8>) -> Seq<char>
    decreases b.len(),
{
    if b.len() == 0 {
        Seq::empty()
    } else {
        hex_text(b.drop_last()).push(hex_digit(b.last() as nat / 16)).push(
            hex_digit(b.last() as nat % 16),
        )
    }
}

fn hex_char(n: u8) -> (r: char)
    requires
        n < 16,
    ensures
        r == hex_digit(n as nat),
{
    let b: u8 = if n < 10 {
        48 + n
    } else {
        87 + n
    };
    b as char
}

/// The first sixteen bytes of a digest in hexadecimal, which is what a transfer is called on
/// disk.
fn short_hex(hash: &[u8; 32]) -> (r: String)
    ensures
        r@ == hex_text(hash@.take(16)),
{
    let mut s = String::new();
    let mut i: usize = 0;
    while i < 16
        invariant
            i <= 16,
            s@ == hex_text(hash@.take(i as int)),
        decreases 16 - i,
    {
        let b: u8 = hash[i];
        s.push(hex_char(b / 16));
        s.push(hex_char(b % 16));
        proof {
            assert(hash@.take(i + 1).drop_last() =~= hash@.take(i as int));
            assert(hash@.take(i + 1).last() == b);
        }
        i = i + 1;
    }
    s
}

/// What a transfer's partial file is called.
pub open spec fn partial_name(hash: Seq<u8>) -> Seq<char> {
    hex_text(hash.take(16)) + ".part"@
}

/// What a partial file is called once it failed its digest.
pub open spec fn corrupt_name(hash: Seq<u8>) -> Seq<char> {
    hex_text(hash.take(16)) + ".corrupt"@
}

/// Where an incoming file is written while it is still incomplete.
pub fn partial_path(dir: &str, hash: &[u8; 32]) -> (r: String)
    ensures
        r@ == joined(dir@, partial_name(hash@)),
{
    let mut s = short_hex(hash);
    s.append(".part");
    join(dir, s.as_str())
}

/// Where a partial file that failed its digest is put aside.
pub fn corrupt_path(dir: &str, hash: &[u8; 32]) -> (r: String)
    ensures
        r@ == joined(dir@, corrupt_name(hash@)),
{
    let mut s = short_hex(hash);
    s.append(".corrupt");
    join(dir, s.as_str())
}

/// How many bytes of a transfer can be kept, given how long its partial file is. One that is
/// as long as the file or longer is no beginning of it.
pub open spec fn resumable(partial: Option<u64>, size: u64) -> u64 {
    match partial {
        Some(len) => if len < size {
            len
        } else {
            0
        },
        None => 0,
    }
}

/// How many bytes of this transfer are already on disk.
pub fn resume_offset(partial: Option<u64>, size: u64) -> (r: u64)
    ensures
        r == resumable(partial, size),
{
    match partial {
        Some(len) => if len < size {
            len
        } else {
            0
        },
        None => 0,
    }
}

// --- describing a file of ours --------------------------------------------------------

/// The last component of a path, if it names something: separators and dots behind it do
/// not count, and `..` is no name.
pub open spec fn file_name_of(path: Seq<char>) -> Option<Seq<char>>
    decreases path.len(),
{
    if path.len() == 0 {
        None
    } else if path.last() == '/' {
        file_name_of(path.drop_last())
    } else {
        let last = behind_slash(path);
        if last == "."@ {
            file_name_of(path.drop_last())
        } else if last == ".."@ {
            None
        } else {
            Some(last)
        }
    }
}

/// What stands behind the last `/`.
pub open spec fn behind_slash(s: Seq<char>) -> Seq<char>
    decreases s.len(),
{
    if s.len() == 0 || s.last() == '/' {
        Seq::empty()
    } else {
        behind_slash(s.drop_last()).push(s.last())
    }
}

proof fn behind_slash_is(s: Seq<char>, i: int)
    requires
        0 <= i <= s.len(),
        i > 0 ==> s[i - 1] == '/',
        forall|j: int| i <= j < s.len() ==> s[j] != '/',
    ensures
        behind_slash(s) == s.skip(i),
    decreases s.len(),
{
    if s.len() == i {
        assert(s.skip(i) =~= Seq::empty());
    } else {
        behind_slash_is(s.drop_last(), i);
        assert(s.drop_last().skip(i).push(s.last()) =~= s.skip(i));
    }
}

/// The filename in a path.
pub fn file_name(path: &str) -> (r: Option<String>)
    ensures
        match r {
            Some(name) => file_name_of(path@) == Some(name@),
            None => file_name_of(path@) is None,
        },
{
    let cs = chars(path);
    let mut end: usize = cs.len();
    proof {
        reveal_strlit(".");
        reveal_strlit("..");
        assert(cs@.take(end as int) =~= path@);
    }
    while end > 0
        invariant
            end <= cs@.len(),
            file_name_of(path@) == file_name_of(cs@.take(end as int)),
        decreases end,
    {
        let ghost here = cs@.take(end as int);
        proof {
            reveal_strlit(".");
            reveal_strlit("..");
            assert(here.drop_last() =~= cs@.take(end - 1));
        }
        if cs[end - 1] == '/' {
            end = end - 1;
        } else {
            let mut i: usize = end;
            while i > 0 && cs[i - 1] != '/'
                invariant
                    i <= end <= cs@.len(),
                    forall|j: int| i <= j < end ==> cs@[j] != '/',
                decreases i,
            {
                i = i - 1;
            }
            proof {
                behind_slash_is(here, i as int);
                assert(here.skip(i as int) =~= cs@.subrange(i as int, end as int));
            }
            let ghost last = here.skip(i as int);
            if end - i == 1 && cs[i] == '.' {
                assert(last =~= "."@);
                end = end - 1;
            } else if end - i == 2 && cs[i] == '.' && cs[i + 1] == '.' {
                assert(last =~= ".."@);
                return None;
            } else {
                proof {
                    if last == "."@ {
                        assert(last[0] == '.');
                    }
                    if last == ".."@ {
                        assert(last[0] == '.' && last[1] == '.');
                    }
                }
                return Some(piece(cs.as_slice(), i, end));
            }
        }
    }
    None
}

/// Why a file of ours cannot be offered.
#[derive(Clone, Debug, PartialEq, Eq)]
pub enum FileError {
    Directory,
    Empty,
    /// It is too large; its bytes.
    TooLarge(u64),
    NoName,
    /// Its name is too long to send.
    LongName,
}

/// What keeps a file of ours from being offered, if anything does.
pub open spec fn offer_fault(path: Seq<char>, is_dir: bool, size: u64) -> Option<FileError> {
    if is_dir {
        Some(FileError::Directory)
    } else if size == 0 {
        Some(FileError::Empty)
    } else if size > MAX_FILE {
        Some(FileError::TooLarge(size))
    } else {
        match file_name_of(path) {
            None => Some(FileError::NoName),
            Some(name) => if utf8_len(name) > MAX_NAME {
                Some(FileError::LongName)
            } else {
                None
            },
        }
    }
}

impl FileError {
    /// What the operator is told about the file at `path`.
    pub open spec fn said(self, path: Seq<char>) -> Seq<char> {
        match self {
            FileError::Directory => path + " is a directory; send one file at a time"@,
            FileError::Empty => path + " is empty"@,
            FileError::TooLarge(n) => path + " is "@ + human_text(n) + ", over the "@ + human_text(
                MAX_FILE,
            ) + " limit"@,
            FileError::NoName => path + " has no usable filename"@,
            FileError::LongName => quoted_text(file_name_of(path)->0)
                + " is longer than 255 bytes"@,
        }
    }

    /// Say why the file at `path` cannot be offered.
    pub fn describe(&self, path: &str) -> (r: String)
        requires
            self is LongName ==> file_name_of(path@) is Some,
        ensures
            r@ == self.said(path@),
    {
        let mut s = path.to_owned();
        match self {
            FileError::Directory => s.append(" is a directory; send one file at a time"),
            FileError::Empty => s.append(" is empty"),
            FileError::TooLarge(n) => {
                s.append(" is ");
                s.append(human(*n).as_str());
                s.append(", over the ");
                s.append(human(MAX_FILE).as_str());
                s.append(" limit");
            },
            FileError::NoName => s.append(" has no usable filename"),
            FileError::LongName => {
                match file_name(path) {
                    Some(name) => {
                        s = quoted(name.as_str());
                        s.append(" is longer than 255 bytes");
                    },
                    None => {},
                }
            },
        }
        s
    }
}

/// The name under which a file of ours can be offered, from what the disk says of it.
pub fn offerable(path: &str, is_dir: bool, size: u64) -> (r: Result<String, FileError>)
    ensures
        match r {
            Ok(name) => offer_fault(path@, is_dir, size) is None && file_name_of(path@) == Some(
                name@,
            ),
            Err(e) => offer_fault(path@, is_dir, size) == Some(e),
        },
{
    if is_dir {
        return Err(FileError::Directory);
    }
    if size == 0 {
        return Err(FileError::Empty);
    }
    if size > MAX_FILE {
        return Err(FileError::TooLarge(size));
    }
    match file_name(path) {
        None => Err(FileError::NoName),
        Some(name) => {
            if name.as_str().as_bytes().len() > MAX_NAME {
                return Err(FileError::LongName);
            }
            Ok(name)
        },
    }
}

/// Describe a file of ours, ready to offer, from what the disk says of it and the digest of
/// its bytes.
pub fn describe(path: &str, is_dir: bool, size: u64, hash: &[u8; 32]) -> (r: Result<
    Offer,
    FileError,
>)
    ensures
        match r {
            Ok(o) => {
                &&& offer_fault(path@, is_dir, size) is None
                &&& Some(o.name@) == file_name_of(path@)
                &&& o.size == size
                &&& o.hash@ == hash@
            },
            Err(e) => offer_fault(path@, is_dir, size) == Some(e),
        },
{
    match offerable(path, is_dir, size) {
        Ok(name) => Ok(Offer { name, size, hash: *hash }),
        Err(e) => Err(e),
    }
}

/// The digest of a file, read in chunks rather than loaded whole.
pub struct FileHasher {
    inner: blake3::Hasher,
}

impl FileHasher {
    /// What has been read so far.
    pub closed spec fn read(&self) -> Seq<u8> {
        hashed_so_far(self.inner)
    }

    /// Nothing has been read yet.
    pub fn new() -> (r: FileHasher)
        ensures
            r.read() == Seq::<u8>::empty(),
    {
        FileHasher { inner: crypto::hasher_new() }
    }

    /// Another chunk of the file.
    pub fn update(&mut self, chunk: &[u8])
        ensures
            final(self).read() == old(self).read() + chunk@,
    {
        crypto::hasher_update(&mut self.inner, chunk);
    }

    /// The digest of everything read.
    pub fn digest(&self) -> (r: [u8; 32])
        ensures
            r@ == blake3_digest(self.read()),
    {
        crypto::hasher_digest(&self.inner)
    }
}

/// BLAKE3 of bytes that are in memory.
pub fn hash_bytes(bytes: &[u8]) -> (r: [u8; 32])
    ensures
        r@ == blake3_digest(bytes@),
{
    crypto::digest(bytes)
}

// --- landing --------------------------------------------------------------------------

/// Where the last dot of a name stands, counted from the front.
pub open spec fn last_dot(s: Seq<char>) -> Option<nat>
    decreases s.len(),
{
    if s.len() == 0 {
        None
    } else if s.last() == '.' {
        Some((s.len() - 1) as nat)
    } else {
        last_dot(s.drop_last())
    }
}

/// Where a name is cut to put a number in: before its extension, if it has one and
/// something in front of it.
pub open spec fn stem_len(name: Seq<char>) -> nat {
    match last_dot(name) {
        Some(i) => if i > 0 {
            i
        } else {
            name.len()
        },
        None => name.len(),
    }
}

/// The `n`-th name to try: the name itself, then `name (2)` and so on.
pub open spec fn numbered(name: Seq<char>, n: nat) -> Seq<char> {
    if n <= 1 {
        name
    } else {
        let k = stem_len(name) as int;
        name.take(k) + " ("@ + decimal_text(n) + ")"@ + name.skip(k)
    }
}

fn find_last_dot(cs: &[char]) -> (r: Option<usize>)
    ensures
        match r {
            Some(i) => last_dot(cs@) == Some(i as nat) && i < cs@.len(),
            None => last_dot(cs@) is None,
        },
{
    let mut i: usize = cs.len();
    assert(cs@.take(i as int) =~= cs@);
    while i > 0
        invariant
            i <= cs@.len(),
            last_dot(cs@) == last_dot(cs@.take(i as int)),
        decreases i,
    {
        proof {
            assert(cs@.take(i as int).drop_last() =~= cs@.take(i - 1));
            assert(cs@.take(i as int).last() == cs@[i - 1]);
        }
        if cs[i - 1] == '.' {
            return Some(i - 1);
        }
        i = i - 1;
    }
    None
}

/// The `n`-th place to try for a file called `name`.
pub fn free_candidate(dir: &str, name: &str, n: u64) -> (r: String)
    ensures
        r@ == joined(dir@, numbered(name@, n as nat)),
{
    if n <= 1 {
        return join(dir, name);
    }
    let cs = chars(name);
    let k: usize = match find_last_dot(cs.as_slice()) {
        Some(i) => if i > 0 {
            i
        } else {
            cs.len()
        },
        None => cs.len(),
    };
    let mut s = piece(cs.as_slice(), 0, k);
    assert(s@ =~= name@.take(k as int));
    s.append(" (");
    s.append(decimal(n as u128).as_str());
    s.append(")");
    let ext = piece(cs.as_slice(), k, cs.len());
    assert(ext@ =~= name@.skip(k as int));
    s.append(ext.as_str());
    join(dir, s.as_str())
}

/// How many places are tried before giving up.
pub const TRIES: usize = 999;

/// Which place is taken, given which of them are occupied: the first free one; the plain
/// name if none of them is.
pub open spec fn first_free(taken: Seq<bool>, from: nat) -> nat
    decreases TRIES - from,
{
    if from >= TRIES {
        1
    } else if from >= taken.len() || !taken[from as int] {
        from + 1
    } else {
        first_free(taken, from + 1)
    }
}

/// `dir/name`, or `dir/name (2)` and so on if that is taken. `taken` tells of each place in
/// turn whether something is there already.
pub fn free_path(dir: &str, name: &str, taken: &[bool]) -> (r: String)
    ensures
        r@ == joined(dir@, numbered(name@, first_free(taken@, 0))),
{
    let mut n: usize = 0;
    while n < TRIES && n < taken.len() && taken[n]
        invariant
            n <= TRIES,
            first_free(taken@, 0) == first_free(taken@, n as nat),
        decreases TRIES - n,
    {
        n = n + 1;
    }
    if n >= TRIES {
        free_candidate(dir, name, 1)
    } else {
        free_candidate(dir, name, n as u64 + 1)
    }
}

/// What to do with a partial file that is complete.
#[derive(Clone, Debug, PartialEq, Eq)]
pub enum Landing {
    /// Give it its name.
    Keep { from: String, to: String },
    /// Put it aside: it is not what was offered.
    Quarantine { from: String, to: String },
    /// Its name cannot be used.
    BadName(NameError),
}

/// Decide what becomes of a complete partial file, from the digest of what it holds. The
/// digest is looked at before the file gets its name.
pub fn finish(dir: &str, offer: &Offer, got: &[u8; 32], taken: &[bool]) -> (r: Landing)
    ensures
        match r {
            Landing::Quarantine { from, to } => {
                &&& got@ != offer.hash@
                &&& from@ == joined(dir@, partial_name(offer.hash@))
                &&& to@ == joined(dir@, corrupt_name(offer.hash@))
            },
            Landing::BadName(e) => got@ == offer.hash@ && name_fault(kept_name(offer.name@))
                == Some(e),
            Landing::Keep { from, to } => {
                &&& got@ == offer.hash@
                &&& name_fault(kept_name(offer.name@)) is None
                &&& from@ == joined(dir@, partial_name(offer.hash@))
                &&& to@ == joined(
                    dir@,
                    numbered(kept_name(offer.name@), first_free(taken@, 0)),
                )
            },
        },
{
    let from = partial_path(dir, &offer.hash);
    if !equal(got, &offer.hash) {
        return Landing::Quarantine { from, to: corrupt_path(dir, &offer.hash) };
    }
    match safe_name(offer.name.as_str()) {
        Err(e) => Landing::BadName(e),
        Ok(name) => Landing::Keep { from, to: free_path(dir, name.as_str(), taken) },
    }
}

impl Landing {
    /// What is said of a file that was not kept.
    pub open spec fn said(self, raw: Seq<char>) -> Seq<char> {
        match self {
            Landing::Keep { .. } => Seq::empty(),
            Landing::Quarantine { to, .. } =>
                "the received file does not match the hash it was offered under; kept as "@ + to@
                    + " rather than trusted"@,
            Landing::BadName(e) => e.said(raw),
        }
    }

    /// Where a file offered as `raw` landed, or why it did not.
    pub fn outcome(self, raw: &str) -> (r: Result<String, String>)
        ensures
            match r {
                Ok(path) => self is Keep && path == self->Keep_to,
                Err(text) => !(self is Keep) && text@ == self.said(raw@),
            },
    {
        match self {
            Landing::Keep { to, .. } => Ok(to),
            Landing::Quarantine { to, .. } => {
                let mut s =
                    "the received file does not match the hash it was offered under; kept as ".to_owned();
                s.append(to.as_str());
                s.append(" rather than trusted");
                Err(s)
            },
            Landing::BadName(e) => Err(e.describe(raw)),
        }
    }
}

// --- text from the network ------------------------------------------------------------

/// What a character from the network is shown as.
pub open spec fn shown_char(c: char) -> char {
    if invisible(c) {
        '\u{fffd}'
    } else {
        c
    }
}

/// What a text from the network is shown as: nothing in it can steer the terminal or
/// reorder what stands around it.
pub open spec fn shown_text(s: Seq<char>) -> Seq<char> {
    s.map_values(|c: char| shown_char(c))
}

/// Make a text from the network fit to be shown.
pub fn sanitize_for_display(raw: &str) -> (r: String)
    ensures
        r@ == shown_text(raw@),
{
    let cs = chars(raw);
    let mut out = String::new();
    let mut i: usize = 0;
    while i < cs.len()
        invariant
            i <= cs@.len(),
            cs@ == raw@,
            out@ == shown_text(raw@.take(i as int)),
        decreases cs@.len() - i,
    {
        let c = if is_invisible(cs[i]) {
            '\u{fffd}'
        } else {
            cs[i]
        };
        out.push(c);
        assert(shown_text(raw@.take(i + 1)) =~= shown_text(raw@.take(i as int)).push(c));
        i = i + 1;
    }
    assert(raw@.take(raw@.len() as int) =~= raw@);
    out
}

// --- laws -----------------------------------------------------------------------------

/// Nothing that is shown of a text from the network is invisible or reorders text.
pub proof fn shown_text_is_visible(s: Seq<char>)
    ensures
        !any_invisible(shown_text(s)),
        shown_text(s).len() == s.len(),
{
    assert forall|i: int| 0 <= i < shown_text(s).len() implies !invisible(
        #[trigger] shown_text(s)[i],
    ) by {
        assert(shown_text(s)[i] == shown_char(s[i]));
    }
}

proof fn last_part_has_no_separator(s: Seq<char>)
    ensures
        forall|i: int| 0 <= i < last_part(s).len() ==> !separator(#[trigger] last_part(s)[i]),
    decreases s.len(),
{
    if s.len() > 0 && !separator(s.last()) {
        let init = last_part(s.drop_last());
        last_part_has_no_separator(s.drop_last());
        assert forall|i: int| 0 <= i < last_part(s).len() implies !separator(
            #[trigger] last_part(s)[i],
        ) by {
            if i < init.len() {
                assert(!separator(init[i]));
            }
        }
    }
}

proof fn trim_start_is_part(s: Seq<char>)
    ensures
        exists|k: int| 0 <= k <= s.len() && crate::text::trim_start(s) == #[trigger] s.skip(k),
    decreases s.len(),
{
    if s.len() > 0 && crate::text::white(s[0]) {
        trim_start_is_part(s.drop_first());
        let k = choose|k: int|
            0 <= k <= s.drop_first().len() && crate::text::trim_start(s.drop_first())
                == #[trigger] s.drop_first().skip(k);
        assert(s.drop_first().skip(k) =~= s.skip(k + 1));
    } else {
        assert(s.skip(0) =~= s);
    }
}

proof fn trim_end_is_part(s: Seq<char>)
    ensures
        exists|k: int| 0 <= k <= s.len() && crate::text::trim_end(s) == #[trigger] s.take(k),
    decreases s.len(),
{
    if s.len() > 0 && crate::text::white(s.last()) {
        trim_end_is_part(s.drop_last());
        let k = choose|k: int|
            0 <= k <= s.drop_last().len() && crate::text::trim_end(s.drop_last())
                == #[trigger] s.drop_last().take(k);
        assert(s.drop_last().take(k) =~= s.take(k));
    } else {
        assert(s.take(s.len() as int) =~= s);
    }
}

/// Texts that are fit to be shown stay so when they are put together.
pub proof fn visible_together(a: Seq<char>, b: Seq<char>)
    requires
        !any_invisible(a),
        !any_invisible(b),
    ensures
        !any_invisible(a + b),
{
    assert forall|i: int| 0 <= i < (a + b).len() implies !invisible(#[trigger] (a + b)[i]) by {
        if i < a.len() {
            assert((a + b)[i] == a[i]);
        } else {
            assert((a + b)[i] == b[i - a.len()]);
        }
    }
}

/// A text that is fit to be shown stays so without the white space around it.
pub proof fn visible_trimmed(s: Seq<char>)
    requires
        !any_invisible(s),
    ensures
        !any_invisible(trim(s)),
{
    trim_start_is_part(s);
    let k = choose|k: int|
        0 <= k <= s.len() && crate::text::trim_start(s) == #[trigger] s.skip(k);
    trim_end_is_part(s.skip(k));
    let m = choose|m: int|
        0 <= m <= s.skip(k).len() && crate::text::trim_end(s.skip(k)) == #[trigger] s.skip(k).take(
            m,
        );
    assert forall|i: int| 0 <= i < trim(s).len() implies !invisible(#[trigger] trim(s)[i]) by {
        assert(trim(s)[i] == s[k + i]);
    }
}

/// A number is fit to be shown.
pub proof fn visible_decimal(n: nat)
    ensures
        !any_invisible(decimal_text(n)),
{
    crate::text::decimal_back(n);
}

/// A name from the network never becomes a path: whatever is kept of it holds no separator,
/// is not `.` or `..`, hides and reorders nothing, and fits in a name's length.
pub proof fn a_kept_name_is_no_path(raw: Seq<char>)
    requires
        name_fault(kept_name(raw)) is None,
    ensures
        kept_name(raw).len() > 0,
        kept_name(raw) != "."@,
        kept_name(raw) != ".."@,
        !any_invisible(kept_name(raw)),
        !kept_name(raw).contains(':'),
        utf8_len(kept_name(raw)) <= MAX_NAME,
        forall|i: int| 0 <= i < kept_name(raw).len() ==> !separator(#[trigger] kept_name(raw)[i]),
{
    let last = last_part(raw);
    last_part_has_no_separator(raw);
    trim_start_is_part(last);
    let k = choose|k: int|
        0 <= k <= last.len() && crate::text::trim_start(last) == #[trigger] last.skip(k);
    trim_end_is_part(last.skip(k));
    let m = choose|m: int|
        0 <= m <= last.skip(k).len() && crate::text::trim_end(last.skip(k))
            == #[trigger] last.skip(k).take(m);
    assert forall|i: int| 0 <= i < kept_name(raw).len() implies !separator(
        #[trigger] kept_name(raw)[i],
    ) by {
        assert(kept_name(raw)[i] == last[k + i]);
    }
}

/// What may be kept of a name is kept whole: keeping it again changes nothing.
pub proof fn a_kept_name_is_kept(raw: Seq<char>)
    requires
        name_fault(kept_name(raw)) is None,
    ensures
        kept_name(kept_name(raw)) == kept_name(raw),
{
    a_kept_name_is_no_path(raw);
    whole_part(kept_name(raw));
    crate::text::trimmed_is_trimmed(last_part(raw));
}

proof fn whole_part(s: Seq<char>)
    requires
        forall|i: int| 0 <= i < s.len() ==> !separator(#[trigger] s[i]),
    ensures
        last_part(s) == s,
    decreases s.len(),
{
    if s.len() > 0 {
        let t = s.drop_last();
        assert forall|i: int| 0 <= i < t.len() implies !separator(#[trigger] t[i]) by {
            assert(t[i] == s[i]);
        }
        whole_part(t);
        assert(s[s.len() - 1] == s.last());
        assert(t.push(s.last()) =~= s);
    }
}

/// A finished file stays inside the directory for incoming files, directly under it.
pub proof fn a_kept_name_lands_in_the_directory(dir: Seq<char>, raw: Seq<char>)
    requires
        name_fault(kept_name(raw)) is None,
        dir.len() > 0,
        dir.last() != '/',
    ensures
        joined(dir, kept_name(raw)) == dir + "/"@ + kept_name(raw),
{
    a_kept_name_is_no_path(raw);
    assert(!separator(kept_name(raw)[0]));
}

/// An earlier file is never overwritten: as long as one of the places that are tried is free,
/// the place that is chosen is free.
pub proof fn the_place_chosen_is_free(taken: Seq<bool>, k: nat)
    requires
        k < TRIES,
        k >= taken.len() || !taken[k as int],
    ensures
        1 <= first_free(taken, 0) <= k + 1,
        first_free(taken, 0) - 1 >= taken.len() || !taken[first_free(taken, 0) - 1],
{
    free_from(taken, 0, k);
}

proof fn free_from(taken: Seq<bool>, from: nat, k: nat)
    requires
        from <= k < TRIES,
        k >= taken.len() || !taken[k as int],
    ensures
        from + 1 <= first_free(taken, from) <= k + 1,
        first_free(taken, from) - 1 >= taken.len() || !taken[first_free(taken, from) - 1],
    decreases k - from,
{
    if from < taken.len() && taken[from as int] {
        free_from(taken, from + 1, k);
    }
}

/// A transfer that resumes starts inside the file, at the end of what is on disk or at
/// nothing.
pub proof fn a_resume_point_is_inside_the_file(partial: Option<u64>, size: u64)
    requires
        size > 0,
    ensures
        resumable(partial, size) < size,
        resumable(partial, size) == 0 || partial == Some(resumable(partial, size)),
{
}

} // verus!
