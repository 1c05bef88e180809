use branch_diffs::branches::{get_branches, parse_branch_record, BranchInfo};
use branch_diffs::bytes::{decode, split_bytes, trim_ascii_whitespace};
use branch_diffs::error::RepositoryError;
use branch_diffs::resolver::{get_commit_bodies, get_merge_base, resolve_branch_diffs};

fn branch(name: &str, upstream: Option<&str>) -> BranchInfo {
    BranchInfo { branch: name.to_owned(), upstream: upstream.map(|u| u.to_owned()) }
}

#[test]
fn listing_gives_branches_in_its_order() {
    assert_eq!(
        get_branches(b"main\0origin/main\nfeature/x\0\nzeta\0main\n"),
        Ok(vec![
            branch("main", Some("origin/main")),
            branch("feature/x", None),
            branch("zeta", Some("main")),
        ])
    );
}

#[test]
fn empty_listing_has_no_branches() {
    assert_eq!(get_branches(b""), Ok(Vec::new()));
    assert_eq!(get_branches(b"\n\n"), Ok(Vec::new()));
}

#[test]
fn empty_lines_between_records_are_skipped() {
    assert_eq!(
        get_branches(b"\na\0\n\n\nb\0c"),
        Ok(vec![branch("a", None), branch("b", Some("c"))])
    );
}

#[test]
fn record_with_wrong_field_count_is_rejected() {
    assert_eq!(get_branches(b"main\n"), Err(RepositoryError::FieldCount { found: 1 }));
    assert_eq!(get_branches(b"a\0b\0c\n"), Err(RepositoryError::FieldCount { found: 3 }));
    assert_eq!(parse_branch_record(b"\0\0\0"), Err(RepositoryError::FieldCount { found: 4 }));
}

#[test]
fn record_that_is_not_utf8_is_rejected() {
    assert_eq!(get_branches(b"ma\xffin\0\n"), Err(RepositoryError::NotUtf8));
    assert_eq!(get_branches(b"main\0up\xc3\n"), Err(RepositoryError::NotUtf8));
}

#[test]
fn first_bad_record_decides_the_error() {
    assert_eq!(
        get_branches(b"ok\0\nbad\xff\0\nworse\n"),
        Err(RepositoryError::NotUtf8)
    );
    assert_eq!(
        get_branches(b"ok\0\nworse\nbad\xff\0\n"),
        Err(RepositoryError::FieldCount { found: 1 })
    );
}

#[test]
fn record_with_empty_name_is_a_branch() {
    assert_eq!(parse_branch_record(b"\0up"), Ok(branch("", Some("up"))));
    assert_eq!(parse_branch_record(b"\0"), Ok(branch("", None)));
}

#[test]
fn record_keeps_carriage_returns_and_unicode() {
    assert_eq!(
        parse_branch_record("caf\u{e9}\0origin/caf\u{e9}\r".as_bytes()),
        Ok(branch("caf\u{e9}", Some("origin/caf\u{e9}\r")))
    );
}

#[test]
fn split_bytes_agrees_with_std() {
    let samples: [&[u8]; 8] = [b"", b"\n", b"a", b"a\n", b"\na", b"a\nb", b"\n\n", b"ab\n\ncd\n"];
    for s in samples {
        let expected: Vec<&[u8]> = s.split(|c| *c == b'\n').collect();
        assert_eq!(split_bytes(s, b'\n'), expected, "bytes {:?}", s);
    }
}

#[test]
fn trim_ascii_whitespace_cuts_both_ends() {
    assert_eq!(trim_ascii_whitespace(b"  abc \t\r\n"), b"abc");
    assert_eq!(trim_ascii_whitespace(b"a b"), b"a b");
    assert_eq!(trim_ascii_whitespace(b" \n "), b"");
    assert_eq!(trim_ascii_whitespace(b""), b"");
    assert_eq!(trim_ascii_whitespace(b"\x0c\x0bx\x0b\x0c"), b"\x0bx\x0b");
    for b in 0..=255u8 {
        let one = [b];
        assert_eq!(trim_ascii_whitespace(&one).is_empty(), b.is_ascii_whitespace(), "byte {}", b);
    }
}

#[test]
fn decode_agrees_with_std() {
    let samples: [&[u8]; 9] = [
        b"",
        b"plain",
        "gr\u{fc}n \u{1f600}".as_bytes(),
        b"\xff",
        b"\xc3",
        b"\xc0\xaf",
        b"\xed\xa0\x80",
        b"\xf4\x90\x80\x80",
        b"\xf0\x9f\x98\x80",
    ];
    for s in samples {
        assert_eq!(decode(s), std::str::from_utf8(s).ok().map(|t| t.to_owned()), "bytes {:?}", s);
    }
}

#[test]
fn merge_base_is_the_trimmed_output() {
    assert_eq!(
        get_merge_base(b"4f2a9c0d1e\n"),
        Ok("4f2a9c0d1e".to_owned())
    );
    assert_eq!(get_merge_base(b"  abc  \r\n"), Ok("abc".to_owned()));
    assert_eq!(get_merge_base(b""), Ok(String::new()));
    assert_eq!(get_merge_base(b"\xff\n"), Err(RepositoryError::NotUtf8));
}

#[test]
fn commit_bodies_are_the_lines_of_the_log() {
    assert_eq!(
        get_commit_bodies(b"Second\n\nDifferential Revision: https://h/D2\n\nFirst\n"),
        Ok(vec![
            "Second".to_owned(),
            "".to_owned(),
            "Differential Revision: https://h/D2".to_owned(),
            "".to_owned(),
            "First".to_owned(),
        ])
    );
    assert_eq!(get_commit_bodies(b""), Ok(Vec::new()));
    assert_eq!(get_commit_bodies(b"  x  "), Ok(vec!["  x  ".to_owned()]));
    assert_eq!(get_commit_bodies(b"a\xfe"), Err(RepositoryError::NotUtf8));
}

#[test]
fn log_output_resolves_to_tickets_oldest_first() {
    let log = b"C3\n\nC2\n\nDifferential Revision: https://h/D20\n\nC1\n\nDifferential Revision: https://h/D10\n";
    assert_eq!(resolve_branch_diffs(log), Ok(vec!["D10".to_owned(), "D20".to_owned()]));
    assert_eq!(resolve_branch_diffs(b""), Ok(Vec::new()));
    assert_eq!(resolve_branch_diffs(b"\x80"), Err(RepositoryError::NotUtf8));
}
