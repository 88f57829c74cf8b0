use meowbox::domain::normalize_subject;

#[test]
fn strips_reply_prefixes() {
    assert_eq!(normalize_subject("Re: Re: 見積の件"), "見積の件");
    assert_eq!(normalize_subject("FWD: hello"), "hello");
    assert_eq!(normalize_subject("plain"), "plain");
}

#[test]
fn strips_numbered_prefixes() {
    assert_eq!(normalize_subject("Re[2]: 定例会の件"), "定例会の件");
    assert_eq!(normalize_subject("RE[10]: 週次報告"), "週次報告");
    assert_eq!(normalize_subject("Re(3): 週次報告"), "週次報告");
}

#[test]
fn strips_fullwidth_colon_and_letters() {
    assert_eq!(normalize_subject("Re： 全角コロン"), "全角コロン");
    assert_eq!(normalize_subject("返信：見積の件"), "見積の件");
    assert_eq!(normalize_subject("ＲＥ：全角のRe"), "全角のRe");
}

#[test]
fn strips_mixed_multiple_prefixes() {
    assert_eq!(normalize_subject("Re: FW: 返信： 見積の件"), "見積の件");
}

#[test]
fn strips_japanese_forward_and_reply_prefixes() {
    assert_eq!(normalize_subject("転送: 議事録"), "議事録");
    assert_eq!(normalize_subject("回答: アンケート"), "アンケート");
}

#[test]
fn does_not_strip_lookalike_words() {
    assert_eq!(
        normalize_subject("Reply: これは剥がさない"),
        "Reply: これは剥がさない"
    );
    assert_eq!(normalize_subject("Regarding: 提案"), "Regarding: 提案");
}

#[test]
fn prefix_only_subject_returns_empty() {
    assert_eq!(normalize_subject("Re:"), "");
}

#[test]
fn normalizing_twice_changes_nothing() {
    for s in [
        "Re: Re: 見積の件",
        "  Fwd[3]:  RE(2)： 転送: 議事録  ",
        "Re:",
        "",
        "plain",
        "Reply: これは剥がさない",
    ] {
        let once = normalize_subject(s);
        assert_eq!(normalize_subject(&once), once);
    }
}

#[test]
fn one_reply_prefix_on_a_normalized_subject_normalizes_away() {
    for s in ["Re: FW: 返信： 見積の件", "plain", "", "Re:"] {
        let n = normalize_subject(s);
        assert_eq!(normalize_subject(&format!("Re: {n}")), n);
    }
}

#[test]
fn keeps_inner_whitespace_and_trims_the_ends() {
    assert_eq!(normalize_subject("\u{3000}Re:  a  b \t"), "a  b");
    assert_eq!(normalize_subject("Re[]: x"), "Re[]: x");
    assert_eq!(normalize_subject("Re[2] x"), "Re[2] x");
}

#[test]
fn normalized_subject_is_a_trimmed_suffix() {
    for s in ["  Re: Fwd:  見積の件  ", "RE[3]: x ", "   ", "Re:", "plain"] {
        let r = normalize_subject(s);
        assert!(s.trim().ends_with(r.as_str()));
        assert_eq!(r, r.trim());
        assert_eq!(normalize_subject(&r), r);
    }
}
