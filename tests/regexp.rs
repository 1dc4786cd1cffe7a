use cargo_machete::pattern::{make_line_regexp, make_multiline_regexp};
use cargo_machete::search::{is_comment_text, search, Search, SearchError};

fn test_one(crate_name: &str, content: &str) -> Result<bool, SearchError> {
    let search = Search::new(crate_name)?;
    search.search_string(content)
}

#[test]
fn test_regexp() -> Result<(), SearchError> {
    assert!(!test_one("log", "use da_force_luke;")?);
    assert!(!test_one("log", "use flog;")?);
    assert!(!test_one("log", "use log_once;")?);
    assert!(!test_one("log", "use log_once::info;")?);
    assert!(!test_one("log", "use flog::flag;")?);
    assert!(!test_one("log", "flog::flag;")?);
    assert!(!test_one("log", "use ::flog;")?);
    assert!(!test_one("log", "use :log;")?);

    assert!(test_one("log", "use log;")?);
    assert!(test_one("log", "use ::log;")?);
    assert!(test_one("log", "use log::{self};")?);
    assert!(test_one("log", "use log::*;")?);
    assert!(test_one("log", "use log::info;")?);
    assert!(test_one("log", "use log as logging;")?);
    assert!(test_one("log", "extern crate log;")?);
    assert!(test_one("log", "extern crate log as logging")?);
    assert!(test_one("log", r#"log::info!("fyi")"#)?);

    assert!(test_one("Log", "use log;")?);
    assert!(test_one("Log", "use ::log;")?);
    assert!(test_one("Log", "use log::{self};")?);
    assert!(test_one("Log", "use log::*;")?);
    assert!(test_one("Log", "use log::info;")?);
    assert!(test_one("Log", "use log as logging;")?);
    assert!(test_one("Log", "extern crate log;")?);
    assert!(test_one("Log", "extern crate log as logging")?);
    assert!(test_one("Log", r#"log::info!("fyi")"#)?);

    assert!(test_one("log", "use Log;")?);
    assert!(test_one("log", "use ::Log;")?);
    assert!(test_one("log", "use Log::{self};")?);
    assert!(test_one("log", "use Log::*;")?);
    assert!(test_one("log", "use Log::info;")?);
    assert!(test_one("log", "use Log as logging;")?);
    assert!(test_one("log", "extern crate Log;")?);
    assert!(test_one("log", "extern crate Log as logging")?);
    assert!(test_one("log", r#"Log::info!("fyi")"#)?);

    assert!(test_one(
        "bitflags",
        r#"
use std::fmt;
bitflags::macro! {
"#
    )?);

    assert!(test_one(
        "Bitflags",
        r#"
use std::fmt;
bitflags::macro! {
"#
    )?);

    assert!(test_one(
        "bitflags",
        r#"
use std::fmt;
Bitflags::macro! {
"#
    )?);

    assert!(test_one("log", "use { log as logging };")?);
    assert!(!test_one("lol", "use { log as logging };")?);

    assert!(test_one(
        "log",
        r#"
use {
    log as logging
};
"#
    )?);

    assert!(test_one(
        "log",
        r#"
use { log as
logging
};
"#
    )?);

    assert!(test_one(
        "log",
        r#"
use { log
    as
        logging
};
"#
    )?);

    assert!(test_one(
        "log",
        r#"
use {
    x::{ y },
    log as logging,
};
"#
    )?);

    assert!(!test_one(
        "log",
        r#"
use {
    x as y
};
type logging = u64;
fn main() {
    let func = |log: u32| {
        log as logging
    };
    func(42);
}
"#
    )?);

    assert!(test_one(
        "static_assertions",
        r#"
    // lol
    static_assertions::assert_not_impl_all!(A: B);
    "#
    )?);

    assert!(test_one(
        "futures",
        r#"
// the [`futures::executor::block_on`] function
pub use futures::future;

    "#
    )?);

    assert!(test_one(
        "futures",
        r#"pub use {async_trait, futures, reqwest};"#
    )?);

    assert!(test_one(
        "futures",
        r#"pub use {async_trait, ::futures, reqwest};"#
    )?);

    assert!(!test_one(
        "futures",
        r#"pub use {async_trait, not_futures::futures, reqwest};"#
    )?);

    assert!(!test_one(
        "futures",
        r#"
pub use {
    async_trait,
    not_futures::futures,
    reqwest,
};"#
    )?);

    assert!(!test_one(
        "futures",
        r#"use not_futures::futures::stuff_in_futures;"#
    )?);

    assert!(test_one(
        "futures",
        r#"pub use {
            async_trait::{mod1, dep2},
            futures::{futures_mod1, futures_mod2::{futures_mod21, futures_mod22}},
            reqwest,
        };"#
    )?);

    assert!(test_one(
        "futures",
        r#"pub use {
            async_trait::sub_mod::*,
            futures as futures_renamed,
            reqwest,
        };"#
    )?);

    assert!(test_one(
        "futures",
        r#"pub use {
            other_dep::{
                star_mod::*,
                unnamed_import::{UnnamedTrait as _, other_mod},
                renamed_import as new_name,
                sub_import::{mod1, mod2},
            },
            futures as futures_renamed,
            reqwest,
        };"#
    )?);

    assert!(!test_one(
        "futures",
        r#"pub use {
            async_trait::{mod1, dep2},
            not_futures::futures::{futures_mod1, futures_mod2::{futures_mod21, futures_mod22}},
            reqwest,
        };"#
    )?);

    assert!(test_one("futures", r#" ::futures::mod1"#)?);

    Ok(())
}

const NAMES: [&str; 4] = ["log", "serde", "rand_core", "futures"];

#[test]
fn pattern_simple_imports() {
    for n in NAMES {
        assert_eq!(test_one(n, &format!("use {n};")), Ok(true));
        assert_eq!(test_one(n, &format!("use ::{n};")), Ok(true));
        assert_eq!(test_one(n, &format!("use {n}::*;")), Ok(true));
        assert_eq!(test_one(n, &format!("use {n} as X;")), Ok(true));
        assert_eq!(test_one(n, &format!("extern crate {n};")), Ok(true));
    }
}

#[test]
fn pattern_paths() {
    for n in NAMES {
        assert_eq!(test_one(n, &format!("{n}::foo()")), Ok(true));
        assert_eq!(test_one(n, &format!("X{n}::foo()")), Ok(false));
        assert_eq!(test_one(n, &format!("use f{n};")), Ok(false));
    }
    assert_eq!(test_one("log", "use log_once;"), Ok(false));
}

#[test]
fn pattern_case_insensitive() {
    assert_eq!(test_one("log", "Log::info!();"), Ok(true));
    assert_eq!(test_one("Log", "use log;"), Ok(true));
}

#[test]
fn pattern_compound_imports() {
    assert_eq!(test_one("futures", "pub use {async_trait, futures, reqwest};"), Ok(true));
    assert_eq!(
        test_one("futures", "pub use {async_trait, not_futures::futures, reqwest};"),
        Ok(false)
    );
}

#[test]
fn pattern_comment_lines() {
    for n in NAMES {
        assert_eq!(test_one(n, &format!("// use {n};")), Ok(false));
        assert_eq!(test_one(n, &format!("   //! {n}::foo()")), Ok(false));
        assert_eq!(test_one(n, &format!("// {n}::a\n{n}::b()")), Ok(true));
    }
}

#[test]
fn binary_content_stops_search() {
    let search = Search::new("log").unwrap();
    assert_eq!(search.search_bytes(b"fn f() {}\n\0\nuse log;\n"), Ok(false));
    assert_eq!(search.search_bytes(b"use log;\n"), Ok(true));
    let mut late = b"use log;\n".to_vec();
    late.extend(std::iter::repeat(b'x').take(70_000));
    late.push(0);
    assert_eq!(search.search_bytes(&late), Ok(false));
}

#[test]
fn grouped_use_ignores_case() {
    assert_eq!(test_one("futures", "pub use {async_trait, Futures, reqwest};"), Ok(true));
    assert_eq!(test_one("Futures", "pub use {\n    async_trait,\n    futures,\n};"), Ok(true));
}

#[test]
fn invalid_utf8_match_is_an_error() {
    let search = Search::new("log").unwrap();
    assert_eq!(search.search_bytes(b"use log; \xff\xfe\n"), Err(SearchError::NotUtf8));
}

#[test]
fn line_regexp_text() {
    assert_eq!(
        make_line_regexp("log"),
        r#"use (::)?(?i)log(?-i)(::|;| as)|(?:[^:]|^|\W::)\b(?i)log(?-i)::|extern crate (?i)log(?-i)( |;)"#
    );
}

#[test]
fn multiline_regexp_text() {
    let sub = r#"(?:::\w+)*(?:::\*|\s+as\s+\w+|::\{(?:[^{}]*(?:\{(?:[^{}]*(?:\{(?:[^{}]*(?:\{[^{}]*\})?[^{}]*)*\})?[^{}]*)*\})?[^{}]*)*\})?"#;
    let expected = format!(
        r#"use \{{\s*(?:(::)?\w+{sub}\s*,\s*)*(::)?(?i)log(?-i){sub}\s*(?:\s*,\s*(::)?\w+{sub})*\s*,?\s*\}};"#
    );
    assert_eq!(make_multiline_regexp("log"), expected);
}

#[test]
fn comment_text_detection() {
    assert!(is_comment_text("// use log;"));
    assert!(is_comment_text("  \t//! doc"));
    assert!(is_comment_text("\u{3000}// wide space"));
    assert!(!is_comment_text("use log; // trailing"));
    assert!(!is_comment_text("/ not"));
    assert!(!is_comment_text(""));
}

#[test]
fn trial_search() {
    assert_eq!(search("fo+", "a\nfoo\n"), Ok(true));
    assert_eq!(search("x\\s+y", "x\n  y"), Ok(true));
    assert_eq!(search("bar", "foo"), Ok(false));
    assert_eq!(search("(", "foo"), Err(SearchError::Pattern));
}
