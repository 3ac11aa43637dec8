use flakehub_cache_types::error::StoreError;
use flakehub_cache_types::nix_store::{
    to_base_name, StorePath, StorePathHash, STORE_PATH_HASH_LEN, STORE_PATH_HASH_REGEX_FRAGMENT,
};

const STORE_DIR: &[u8] = b"/nix/store";

#[test]
fn test_to_base_name() {
    let base_name = to_base_name(
        STORE_DIR,
        b"/nix/store/ia70ss13m22znbl8khrf2hq72qmh5drr-ruby-2.7.5",
    )
    .unwrap();

    assert_eq!(
        b"ia70ss13m22znbl8khrf2hq72qmh5drr-ruby-2.7.5".to_vec(),
        base_name
    );
}

#[test]
fn test_to_base_name_invalid_base_name() {
    // Long enough to pass the length check, but not a valid base name
    let e = to_base_name(
        STORE_DIR,
        b"/nix/store/ia70ss13m22znbl8khrf2hq72qmh5drr-foo@",
    )
    .unwrap_err();

    assert!(matches!(e, StoreError::InvalidStorePath { .. }));
}

#[test]
fn test_to_base_name_too_short() {
    let e = to_base_name(STORE_DIR, b"/nix/store/foo").unwrap_err();

    assert!(matches!(
        e,
        StoreError::InvalidStorePath {
            reason: "Path is too short",
            ..
        }
    ));
}

#[test]
fn test_to_base_name_not_in_store() {
    let e = to_base_name(STORE_DIR, b"/tmp/foo").unwrap_err();

    assert!(matches!(e, StoreError::InvalidStorePath { .. }));
}

#[test]
fn test_to_base_name_of_the_store_itself() {
    for path in ["/nix/store", "/nix/store/", "/nix//store/."] {
        assert!(matches!(
            to_base_name(STORE_DIR, path.as_bytes()),
            Err(StoreError::InvalidStorePath {
                reason: "Path is store directory itself",
                ..
            })
        ));
    }
}

#[test]
fn test_to_base_name_takes_the_first_component() {
    for path in [
        "/nix/store/ia70ss13m22znbl8khrf2hq72qmh5drr-ruby-2.7.5/bin/ruby",
        "/nix//store/./ia70ss13m22znbl8khrf2hq72qmh5drr-ruby-2.7.5/",
    ] {
        assert_eq!(
            to_base_name(STORE_DIR, path.as_bytes()).unwrap(),
            b"ia70ss13m22znbl8khrf2hq72qmh5drr-ruby-2.7.5"
        );
    }
    assert!(matches!(
        to_base_name(
            STORE_DIR,
            b"nix/store/ia70ss13m22znbl8khrf2hq72qmh5drr-ruby-2.7.5"
        ),
        Err(StoreError::InvalidStorePath {
            reason: "Path is not in store directory",
            ..
        })
    ));
    assert!(matches!(
        to_base_name(
            STORE_DIR,
            b"/nix/storeroom/ia70ss13m22znbl8khrf2hq72qmh5drr-ruby-2.7.5"
        ),
        Err(StoreError::InvalidStorePath {
            reason: "Path is not in store directory",
            ..
        })
    ));
}

#[test]
fn a_base_name_is_a_hash_and_a_name() {
    let text = "ia70ss13m22znbl8khrf2hq72qmh5drr-ruby-2.7.5";
    let path = StorePath::from_str(text).unwrap();
    assert_eq!(
        path.to_hash().as_str(),
        "ia70ss13m22znbl8khrf2hq72qmh5drr"
    );
    assert_eq!(path.name(), "ruby-2.7.5");
    assert_eq!(path.to_string(), text);
    assert_eq!(path.as_base_name_bytes(), text.as_bytes());
    assert_eq!(
        StorePath::from_base_name_unchecked(text.as_bytes().to_vec()),
        path
    );
}

#[test]
fn base_names_are_validated() {
    for text in [
        "",
        "ia70ss13m22znbl8khrf2hq72qmh5drr",
        "ia70ss13m22znbl8khrf2hq72qmh5drr-",
        "ia70ss13m22znbl8khrf2hq72qmh5drr_ruby",
        "ea70ss13m22znbl8khrf2hq72qmh5drr-ruby",
        "ia70ss13m22znbl8khrf2hq72qmh5drr-ru by",
        "ia70ss13m22znbl8khrf2hq72qmh5drr-ruby\n",
        "ia70ss13m22znbl8khrf2hq72qmh5drr-rub\u{e9}",
        "ia70ss13m22znbl8khrf2hq72qmh5drr-a,b",
        "ia70ss13m22znbl8khrf2hq72qmh5drr-a/b",
    ] {
        match StorePath::from_str(text) {
            Err(StoreError::InvalidStorePathName { base_name, reason }) => {
                assert_eq!(base_name, text.as_bytes());
                assert_eq!(reason, "Name is of invalid format");
            }
            other => panic!("{text}: {other:?}"),
        }
    }
    assert!(matches!(
        StorePath::from_base_name(vec![0xff; 40]),
        Err(StoreError::InvalidStorePathName {
            reason: "Name contains non-UTF-8 characters",
            ..
        })
    ));
    assert!(StorePath::from_str("ia70ss13m22znbl8khrf2hq72qmh5drr-AZaz09+-._?=").is_ok());
}

#[test]
fn hashes_are_validated() {
    for text in ["whatevenisthisthing", "", "00000000000000000000000000000000\n"] {
        match StorePathHash::new(text) {
            Err(StoreError::InvalidStorePathHash { hash, reason }) => {
                assert_eq!(hash, text);
                assert_eq!(reason, "Hash is of invalid length");
            }
            other => panic!("{text}: {other:?}"),
        }
    }
    for text in [
        "eeeeeeeeeeeeeeeeeeeeeeeeeeeeeeee",
        "IA70SS13M22ZNBL8KHRF2HQ72QMH5DRR",
        "\u{e9}00000000000000000000000000000\n",
    ] {
        assert!(matches!(
            StorePathHash::new(text),
            Err(StoreError::InvalidStorePathHash {
                reason: "Hash is of invalid format",
                ..
            })
        ));
    }
    let text = "ib3sh3pcz10wsmavxvkdbayhqivbghlq";
    let hash = StorePathHash::new(text).unwrap();
    assert_eq!(hash.as_str(), text);
    assert_eq!(hash.to_string(), text);
    assert_eq!(StorePathHash::new_unchecked(text.to_owned()), hash);
}

#[test]
fn hashes_are_what_the_pattern_matches() {
    let pattern =
        regex::Regex::new(&format!("^{STORE_PATH_HASH_REGEX_FRAGMENT}$")).unwrap();
    for byte in 0..=127_u8 {
        let text = char::from(byte).to_string().repeat(STORE_PATH_HASH_LEN);
        assert_eq!(
            StorePathHash::new(&text).is_ok(),
            pattern.is_match(&text),
            "{text:?}"
        );
    }
}

#[test]
fn errors_have_names() {
    let path = StorePath::from_str("ia70ss13m22znbl8khrf2hq72qmh5drr-ruby").unwrap();
    let io = std::io::Error::new(std::io::ErrorKind::Other, "broken");
    for (error, name) in [
        (
            to_base_name(STORE_DIR, b"/tmp").unwrap_err(),
            "InvalidStorePath",
        ),
        (
            StorePath::from_str("").unwrap_err(),
            "InvalidStorePathName",
        ),
        (StorePathHash::new("").unwrap_err(), "InvalidStorePathHash"),
        (StoreError::from(io), "IoError"),
        (StoreError::from_exception("what"), "CxxError"),
        (
            StoreError::InvalidProvenance {
                path,
                error_display: String::new(),
                invalid_string: String::new(),
            },
            "InvalidProvenance",
        ),
    ] {
        assert_eq!(error.name(), name);
    }
    assert!(matches!(
        StoreError::from_exception("what"),
        StoreError::CxxError { exception } if exception == "what"
    ));
}

#[test]
fn every_path_below_a_store_child_has_its_base_name() {
    let child = "/nix/store/ia70ss13m22znbl8khrf2hq72qmh5drr-ruby-2.7.5";
    for below in ["", "bin", "bin/ruby", "..", "/", "./a//b/", "."] {
        assert_eq!(
            to_base_name(STORE_DIR, format!("{child}/{below}").as_bytes()).unwrap(),
            b"ia70ss13m22znbl8khrf2hq72qmh5drr-ruby-2.7.5"
        );
    }
}
