//! Filenames, sizes, resuming and landing.

use murmure::files::{
    describe, file_name, finish, free_candidate, hash_bytes, human, join, offerable, partial_path,
    resume_offset, safe_name, sanitize_for_display, FileError, FileHasher, Landing, NameError,
    Offer, MAX_FILE,
};

#[test]
fn a_hostile_filename_cannot_escape_the_directory() {
    assert_eq!(safe_name("../../.ssh/authorized_keys").unwrap(), "authorized_keys");
    assert_eq!(safe_name("/etc/passwd").unwrap(), "passwd");
    assert_eq!(safe_name(r"..\..\Windows\System32\x.dll").unwrap(), "x.dll");
    assert_eq!(safe_name("rapport.pdf").unwrap(), "rapport.pdf");

    assert!(safe_name("../..").is_err());
    assert!(safe_name("/").is_err());
    assert!(safe_name("   ").is_err());
    assert!(safe_name(".").is_err());
    assert!(safe_name("innocent\u{202e}gnp.exe").is_err());
    assert!(safe_name("photo\u{2066}exe.\u{2069}png").is_err());
    assert!(safe_name("notes\u{0000}.txt").is_err());
    assert!(safe_name("notes.txt:hidden").is_err());
}

#[test]
fn each_refusal_says_why() {
    assert_eq!(safe_name(".."), Err(NameError::NotAName));
    assert_eq!(
        NameError::NotAName.describe("a\"/.."),
        "the peer sent \"a\\\"/..\" as a filename, which is not a name"
    );
    assert_eq!(safe_name(&"é".repeat(128)), Err(NameError::TooLong(256)));
    assert_eq!(NameError::TooLong(256).describe("x"), "the peer sent a 256-byte filename");
    assert_eq!(safe_name("a\u{200f}b"), Err(NameError::Invisible));
    assert_eq!(safe_name("a\u{85}b"), Err(NameError::Invisible));
    assert_eq!(
        NameError::Invisible.describe(""),
        "the peer sent a filename containing invisible or reordering characters"
    );
    assert_eq!(safe_name("dir/ a:b "), Err(NameError::NotPortable));
    assert_eq!(
        NameError::NotPortable.describe("dir/ a:b "),
        "the peer sent \"a:b\", which is not a portable filename"
    );
    assert_eq!(safe_name("x/ spaced name.txt \t"), Ok("spaced name.txt".to_owned()));
}

/// Every character that reorders text, and no neighbour of theirs.
#[test]
fn the_reordering_characters_are_the_listed_ones() {
    let listed = [
        '\u{061c}', '\u{200e}', '\u{200f}', '\u{202a}', '\u{202b}', '\u{202c}', '\u{202d}',
        '\u{202e}', '\u{2066}', '\u{2067}', '\u{2068}', '\u{2069}',
    ];
    for n in 0u32..0x11_0000 {
        if let Some(c) = char::from_u32(n) {
            assert_eq!(
                murmure::files::is_invisible(c),
                c.is_control() || listed.contains(&c),
                "{n:x}"
            );
        }
    }
}

#[test]
fn describing_a_file_gives_its_name_size_and_hash() {
    let hash = hash_bytes(b"bonjour");
    let offer = describe("/tmp/x/rapport.pdf", false, 7, &hash).unwrap();
    assert_eq!(offer.name, "rapport.pdf");
    assert_eq!(offer.size, 7);
    assert_eq!(offer.hash, *blake3::hash(b"bonjour").as_bytes());

    assert_eq!(
        describe("/tmp/x", true, 4096, &hash),
        Err(FileError::Directory),
        "a directory is not a file"
    );
    assert_eq!(describe("/tmp/x/empty", false, 0, &hash), Err(FileError::Empty), "nothing to send");
}

#[test]
fn a_file_that_cannot_be_offered_says_why() {
    assert_eq!(offerable("/a/b", false, MAX_FILE + 1), Err(FileError::TooLarge(MAX_FILE + 1)));
    assert_eq!(offerable("/a/b", false, MAX_FILE), Ok("b".to_owned()));
    assert_eq!(offerable("/a/..", false, 5), Err(FileError::NoName));
    let long = "n".repeat(256);
    assert_eq!(offerable(&format!("/a/{long}"), false, 5), Err(FileError::LongName));
    assert_eq!(FileError::Empty.describe("/a/b"), "/a/b is empty");
    assert_eq!(
        FileError::Directory.describe("/a"),
        "/a is a directory; send one file at a time"
    );
    assert_eq!(
        FileError::TooLarge(3_000_000_000).describe("/a"),
        "/a is 3.0 GB, over the 2.1 GB limit"
    );
    assert_eq!(FileError::NoName.describe("/"), "/ has no usable filename");
    assert_eq!(FileError::LongName.describe("/a/b"), "\"b\" is longer than 255 bytes");
}

/// The filename in a path, where std finds one.
#[test]
fn filenames_are_found_as_std_finds_them() {
    for path in [
        "", "/", "//", ".", "..", "./", "../", "a", "a/", "a//", "a/.", "a/./", "a/..", "a/../",
        "/a", "./a", "../a", "a/b", "a/b/", "a/b/.", "a/b/./.", "a/.b", "a/..b", "a/...", "/..",
        "/.", "a/./b", "é/à ü.pdf", "~/x",
    ] {
        let expected = std::path::Path::new(path)
            .file_name()
            .map(|n| n.to_str().unwrap().to_owned());
        assert_eq!(file_name(path), expected, "{path:?}");
    }
}

#[test]
fn paths_are_joined_as_std_joins_them() {
    for dir in ["", "/", "a", "a/", "/a/b", "é"] {
        for name in ["", "x", "/x", "x/y", "./x"] {
            let expected = std::path::Path::new(dir).join(name);
            assert_eq!(join(dir, name), expected.to_str().unwrap(), "{dir:?} {name:?}");
        }
    }
}

#[test]
fn a_partial_is_resumed_only_when_it_belongs_to_this_transfer() {
    let hash = hash_bytes(b"bonjour tout le monde");
    let other = hash_bytes(b"un autre fichier");
    // What is on disk, by name.
    let mut disk: Vec<(String, u64)> = Vec::new();
    let on_disk = |disk: &Vec<(String, u64)>, hash: &[u8; 32]| {
        let path = partial_path("/in", hash);
        disk.iter().find(|(p, _)| *p == path).map(|(_, n)| *n)
    };
    assert_eq!(resume_offset(on_disk(&disk, &hash), 21), 0, "nothing on disk yet");
    disk.push((partial_path("/in", &hash), 8));
    assert_eq!(resume_offset(on_disk(&disk, &hash), 21), 8);
    assert_eq!(resume_offset(on_disk(&disk, &other), 16), 0);
    assert_eq!(resume_offset(on_disk(&disk, &hash), 4), 0);
    assert_eq!(resume_offset(on_disk(&disk, &hash), 8), 0);
}

#[test]
fn a_partial_is_named_after_the_hash() {
    let mut hash = [0u8; 32];
    hash[0] = 0xab;
    hash[15] = 0x0f;
    hash[16] = 0xff;
    assert_eq!(partial_path("/in", &hash), "/in/ab00000000000000000000000000000f.part");
}

fn rapport(body: &[u8]) -> Offer {
    Offer {
        name: "rapport.pdf".into(),
        size: body.len() as u64,
        hash: hash_bytes(body),
    }
}

#[test]
fn a_completed_transfer_is_verified_before_it_gets_its_name() {
    let body = b"bonjour tout le monde";
    let offer = rapport(body);
    let landed = finish("/in", &offer, &hash_bytes(body), &[false]);
    assert_eq!(landed.clone().outcome(&offer.name), Ok("/in/rapport.pdf".to_owned()));
    assert_eq!(
        landed,
        Landing::Keep {
            from: partial_path("/in", &offer.hash),
            to: "/in/rapport.pdf".to_owned()
        }
    );
    let second = finish("/in", &offer, &hash_bytes(body), &[true, false]);
    assert_eq!(second.outcome(&offer.name), Ok("/in/rapport (2).pdf".to_owned()));
}

#[test]
fn corrupted_bytes_never_appear_as_a_finished_download() {
    let offer = rapport(b"bonjour");
    let landed = finish("/in", &offer, &hash_bytes(b"bonsoir"), &[]);
    let aside = partial_path("/in", &offer.hash).replace(".part", ".corrupt");
    assert_eq!(
        landed,
        Landing::Quarantine { from: partial_path("/in", &offer.hash), to: aside.clone() }
    );
    assert_eq!(
        landed.outcome("rapport.pdf").unwrap_err(),
        format!(
            "the received file does not match the hash it was offered under; kept as {aside} rather than trusted"
        )
    );
    let mut odd = rapport(b"x");
    odd.name = "..".into();
    let hash = odd.hash;
    assert_eq!(finish("/in", &odd, &hash, &[]), Landing::BadName(NameError::NotAName));
}

#[test]
fn a_taken_name_gets_a_number() {
    assert_eq!(free_candidate("/in", "report.pdf", 1), "/in/report.pdf");
    assert_eq!(free_candidate("/in", "report.pdf", 12), "/in/report (12).pdf");
    assert_eq!(free_candidate("/in", "a.tar.gz", 2), "/in/a.tar (2).gz");
    assert_eq!(free_candidate("/in", ".bashrc", 2), "/in/.bashrc (2)");
    assert_eq!(free_candidate("/in", "README", 2), "/in/README (2)");
    assert_eq!(murmure::files::free_path("/in", "a", &[true; 999]), "/in/a");
    assert_eq!(murmure::files::free_path("/in", "a", &[true; 998]), "/in/a (999)");
    assert_eq!(murmure::files::free_path("/in", "a", &[true, true, false]), "/in/a (3)");
}

#[test]
fn hashing_in_chunks_is_hashing_at_once() {
    let body: Vec<u8> = (0..200_000u32).map(|i| (i % 251) as u8).collect();
    let mut h = FileHasher::new();
    for chunk in body.chunks(65_536) {
        h.update(chunk);
    }
    assert_eq!(h.digest(), hash_bytes(&body));
    assert_eq!(h.digest(), *blake3::hash(&body).as_bytes());
}

#[test]
fn sizes_are_readable() {
    assert_eq!(human(0), "0 B");
    assert_eq!(human(999), "999 B");
    assert_eq!(human(1_500), "1.5 kB");
    assert_eq!(human(2_400_000), "2.4 MB");
}

/// What dividing a binary64 by thousands and printing it to one place gives.
fn by_floats(bytes: u64) -> String {
    const UNITS: [&str; 4] = ["B", "kB", "MB", "GB"];
    let mut value = bytes as f64;
    let mut unit = 0;
    while value >= 1000.0 && unit < UNITS.len() - 1 {
        value /= 1000.0;
        unit += 1;
    }
    if unit == 0 {
        format!("{bytes} B")
    } else {
        format!("{value:.1} {}", UNITS[unit])
    }
}

#[test]
fn sizes_are_those_of_binary_fractions() {
    for n in 0..30_000u64 {
        assert_eq!(human(n), by_floats(n));
    }
    // Where a thousandth has more bits than a binary64, and a tie is broken.
    assert_eq!(human(18_014_398_511_250_001_920), "18014398511.2 GB");
    for n in [u64::MAX, 18_014_398_511_250_001_920, 18_014_398_511_250_004_096] {
        assert_eq!(human(n), by_floats(n), "{n}");
    }
    let mut n: u64 = 0x9e37_79b9_7f4a_7c15;
    for _ in 0..20_000 {
        n = n.wrapping_mul(6364136223846793005).wrapping_add(1442695040888963407);
        for shift in [0, 1, 9, 10, 11, 20] {
            assert_eq!(human(n >> shift), by_floats(n >> shift), "{n} {shift}");
        }
    }
    // Around every place where rounding could go either way.
    for base in [1_000u64, 1_000_000, 1_000_000_000, 1_000_000_000_000] {
        for k in 0..400u64 {
            for d in [-1i64, 0, 1] {
                let n = (base + k * base / 20).wrapping_add(d as u64);
                assert_eq!(human(n), by_floats(n), "{n}");
            }
        }
    }
    let mut n = 1u64;
    for _ in 0..63 {
        n = n.wrapping_mul(6_364_136_223_846_793_005).wrapping_add(1_442_695_040_888_963_407);
        for s in 0..64 {
            assert_eq!(human(n >> s), by_floats(n >> s), "{}", n >> s);
        }
    }
    for n in [u64::MAX, u64::MAX - 1, 1 << 53, (1 << 53) + 1, (1 << 53) + 3, 9_007_199_254_740_992_000] {
        assert_eq!(human(n), by_floats(n), "{n}");
    }
}

#[test]
fn text_from_the_network_cannot_steer_the_terminal() {
    assert_eq!(sanitize_for_display("bonjour éà 👋"), "bonjour éà 👋");
    assert_eq!(sanitize_for_display("a\u{1b}[2Jb\u{202e}c"), "a\u{fffd}[2Jb\u{fffd}c");
}
