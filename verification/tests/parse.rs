use meowbox::domain::{normalize_subject, Address};
use meowbox::parse::{
    attachment_bytes, html_to_plain_text, parse, snippet, strip_quotes_and_signature, thread_key,
    ParseError, Parsed,
};

const ISO2022JP_PLAIN: &[u8] = b"From: =?ISO-2022-JP?B?GyRCOjRGIxsoQiAbJEIwbE86GyhC?= <sato@client-a.example>\r\nTo: me@mail.example\r\nSubject: =?ISO-2022-JP?B?GyRCOCtAUSRON28bKEI=?=\r\nDate: Mon, 01 Sep 2025 10:00:00 +0900\r\nMessage-ID: <iso-001@client-a.example>\r\nMIME-Version: 1.0\r\nContent-Type: text/plain; charset=ISO-2022-JP\r\nContent-Transfer-Encoding: 7bit\r\n\r\n\x1b$B$$$D$b$*@$OC$K$J$C$F$*$j$^$9!#\x1b(B\r\n\x1b$B8+@Q=q$r$*Aw$j$$$?$7$^$9!#\x1b(B\r\n\x1b$B$h$m$7$/$*4j$$$$$?$7$^$9!#\x1b(B\r\n";

const SHIFTJIS_PLAIN: &[u8] = b"From: =?Shift_JIS?B?jG+XnZWU?= <billing@client-b.example>\r\nTo: me@mail.example\r\nSubject: =?Shift_JIS?B?kL+LgY+RgsyRl5V0?=\r\nDate: Tue, 02 Sep 2025 09:30:00 +0900\r\nMessage-ID: <sjis-001@client-b.example>\r\nMIME-Version: 1.0\r\nContent-Type: text/plain; charset=Shift_JIS\r\nContent-Transfer-Encoding: 8bit\r\n\r\n\x90\xbf\x8b\x81\x8f\x91\x82\xf0\x93Y\x95t\x82\xa2\x82\xbd\x82\xb5\x82\xdc\x82\xb7\x81B\r\n\x82\xb2\x8am\x94F\x82\xad\x82\xbe\x82\xb3\x82\xa2\x81B\r\n";

const UTF8_ALTERNATIVE: &[u8] = b"From: Yamada <yamada@client-a.example>\r\nTo: me@mail.example\r\nSubject: =?UTF-8?B?OeaciOOBruWumuS+i+S8mg==?=\r\nDate: Wed, 03 Sep 2025 08:00:00 +0900\r\nMessage-ID: <alt-001@client-a.example>\r\nMIME-Version: 1.0\r\nContent-Type: multipart/alternative; boundary=\"ALT-BOUNDARY\"\r\n\r\n--ALT-BOUNDARY\r\nContent-Type: text/plain; charset=UTF-8\r\nContent-Transfer-Encoding: base64\r\n\r\n5ZCE5L2NDQoNCjnmnIjjga7lrprkvovkvJrjgpLjgZTmoYjlhoXjgZfjgb7jgZnjgIINCg==\r\n--ALT-BOUNDARY\r\nContent-Type: text/html; charset=UTF-8\r\nContent-Transfer-Encoding: base64\r\n\r\nPGh0bWw+PGJvZHk+PHA+5ZCE5L2NPC9wPjxwPjnmnIjjga7lrprkvovkvJrjgpLjgZTmoYjlhoXjgZfjgb7jgZnjgII8L3A+PC9ib2R5PjwvaHRtbD4NCg==\r\n--ALT-BOUNDARY--\r\n";

const ATTACHMENT_MIXED: &[u8] = b"From: Suzuki <suzuki@client-a.example>\r\nTo: me@mail.example\r\nSubject: =?UTF-8?B?6LOH5paZ6YCB5LuY?=\r\nDate: Thu, 04 Sep 2025 11:00:00 +0900\r\nMessage-ID: <mixed-001@client-a.example>\r\nMIME-Version: 1.0\r\nContent-Type: multipart/mixed; boundary=\"MIX-BOUNDARY\"\r\n\r\n--MIX-BOUNDARY\r\nContent-Type: text/plain; charset=UTF-8\r\nContent-Transfer-Encoding: base64\r\n\r\n6LOH5paZ44KS5re75LuY44GX44G+44GZ44CCDQo=\r\n--MIX-BOUNDARY\r\nContent-Type: text/plain; name=\"notes.txt\"\r\nContent-Disposition: attachment; filename=\"notes.txt\"\r\nContent-Transfer-Encoding: base64\r\n\r\nbWVldGluZyBub3Rlcwo=\r\n--MIX-BOUNDARY--\r\n";

const REPLY_MULTIPREFIX: &[u8] = b"From: Tanaka <tanaka@client-a.example>\r\nTo: sato@client-a.example\r\nSubject: =?UTF-8?B?UmU6IEZ3ZDogUkVbMl06IOWumuS+i+S8muOBruS7tg==?=\r\nDate: Fri, 05 Sep 2025 12:00:00 +0900\r\nMessage-ID: <reply-003@client-a.example>\r\nIn-Reply-To: <child-002@client-a.example>\r\nReferences: <root-001@client-a.example> <child-002@client-a.example>\r\nMIME-Version: 1.0\r\nContent-Type: text/plain; charset=UTF-8\r\nContent-Transfer-Encoding: base64\r\n\r\n5om/55+l44GX44G+44GX44Gf44CCDQrmmI7ml6Xjgb7jgafjgavnorroqo3jgZfjgb7jgZnjgIINCg0KPiDlrprkvovkvJrjga7os4fmlpnjgpLjgYrpgIHjgorjgZfjgb7jgZnjgIINCj4g44GU56K66KqN44GP44Gg44GV44GE44CCDQoNCi0tIA0K55Sw5LitIOWkqumDjg0K\r\n";

const HTML_ONLY: &[u8] = b"From: Info <info@client-c.example>\r\nTo: me@mail.example\r\nSubject: =?UTF-8?B?5Y+X5LuY5pmC6ZaT44Gu44GK55+l44KJ44Gb?=\r\nDate: Sat, 06 Sep 2025 13:00:00 +0900\r\nMessage-ID: <html-001@client-c.example>\r\nMIME-Version: 1.0\r\nContent-Type: text/html; charset=UTF-8\r\nContent-Transfer-Encoding: 8bit\r\n\r\n<html><head><style>p { color: red; }</style><script>var x = 1;</script></head><body><p>\xe5\x8f\x97\xe4\xbb\x98\xe6\x99\x82\xe9\x96\x93\xe3\x81\xaf 9:00 &amp; 18:00 \xe3\x81\xa7\xe3\x81\x99\xe3\x80\x82</p>\r\n<p>\xe8\xa9\xb3\xe7\xb4\xb0\xe3\x81\xaf &lt;\xe6\x8b\x85\xe5\xbd\x93&gt; \xe3\x81\xbe\xe3\x81\xa7\xe3\x81\x94\xe9\x80\xa3\xe7\xb5\xa1\xe3\x81\x8f\xe3\x81\xa0\xe3\x81\x95\xe3\x81\x84\xe3\x80\x82</p>\r\n</body></html>\r\n";

#[test]
fn parses_iso2022jp_plain() {
    let p = parse(ISO2022JP_PLAIN).expect("parse should succeed");
    assert_eq!(p.subject, "見積の件");
    assert!(p.body_text.contains("見積書をお送りいたします。"));
    let from = p.from.expect("from should be present");
    assert_eq!(from.email, "sato@client-a.example");
    assert_eq!(from.name.as_deref(), Some("佐藤 一郎"));
}

#[test]
fn parses_shiftjis_plain() {
    let p = parse(SHIFTJIS_PLAIN).expect("parse should succeed");
    assert_eq!(p.subject, "請求書の送付");
    assert!(p.body_text.contains("請求書を添付いたします。"));
}

#[test]
fn parses_utf8_alternative() {
    let p = parse(UTF8_ALTERNATIVE).expect("parse should succeed");
    assert!(p.body_text.contains("9月の定例会をご案内します。"));
    let html = p.body_html.expect("body_html should be present");
    assert!(html.contains("<p>"));
}

#[test]
fn parses_attachment_mixed() {
    let p = parse(ATTACHMENT_MIXED).expect("parse should succeed");
    assert!(p.has_attachments);
    assert_eq!(p.attachments.len(), 1);
    assert_eq!(p.attachments[0].filename, "notes.txt");
    assert_eq!(p.attachments[0].size, 14);
    assert!(p.body_text.contains("資料を添付します。"));
}

#[test]
fn attachment_bytes_returns_the_attachment_body() {
    let bytes = attachment_bytes(ATTACHMENT_MIXED, 0).expect("attachment should be found");
    assert_eq!(bytes, b"meeting notes\n");
}

#[test]
fn attachment_bytes_index_matches_parse_order() {
    let p = parse(ATTACHMENT_MIXED).expect("parse should succeed");
    for (i, meta) in p.attachments.iter().enumerate() {
        let bytes = attachment_bytes(ATTACHMENT_MIXED, i).expect("attachment should be found");
        assert_eq!(bytes.len(), meta.size);
    }
    assert_eq!(p.attachments[0].filename, "notes.txt");
}

#[test]
fn attachment_bytes_out_of_range_is_error() {
    assert!(attachment_bytes(ATTACHMENT_MIXED, 1).is_err());
}

#[test]
fn attachment_bytes_of_garbage_is_not_a_message() {
    assert_eq!(attachment_bytes(b"", 0), Err(ParseError::NotAMessage));
    assert_eq!(attachment_bytes(ATTACHMENT_MIXED, 1), Err(ParseError::NoSuchAttachment));
}

#[test]
fn parses_reply_multiprefix_strips_quote_and_signature() {
    let p = parse(REPLY_MULTIPREFIX).expect("parse should succeed");
    assert_eq!(p.body_text.trim(), "承知しました。\n明日までに確認します。");
    assert_eq!(p.references.len(), 2);
    assert_eq!(p.references[0], "<root-001@client-a.example>");
    assert_eq!(thread_key(&p), "<root-001@client-a.example>");
}

#[test]
fn normalizes_reply_multiprefix_subject() {
    let p = parse(REPLY_MULTIPREFIX).expect("parse should succeed");
    assert_eq!(normalize_subject(&p.subject), "定例会の件");
}

#[test]
fn parses_html_only_strips_tags_and_decodes_entities() {
    let p = parse(HTML_ONLY).expect("parse should succeed");

    let html = p.body_html.expect("body_html should be present");
    assert!(html.contains("<p>"));

    assert!(p.body_text.contains("受付時間は 9:00 & 18:00 です。"));
    assert!(p.body_text.contains("詳細は <担当> までご連絡ください。"));
    assert!(!p.body_text.contains("color: red"));
    assert!(!p.body_text.contains("var x = 1"));
    assert!(!p.body_text.contains("<p>"));
    assert!(!p.body_text.contains("</body>"));
    assert!(!p.body_text.contains("\n\n\n"));
}

#[test]
fn strip_quotes_and_signature_keeps_dash_words_and_drops_original_message() {
    assert_eq!(
        strip_quotes_and_signature("試してみます。\n--force を付けてください。"),
        "試してみます。\n--force を付けてください。"
    );
    assert_eq!(
        strip_quotes_and_signature("本文\n-----Original Message-----\n引用された内容"),
        "本文"
    );
}

#[test]
fn parse_keeps_ids_in_angle_brackets() {
    let p = parse(REPLY_MULTIPREFIX).expect("parse should succeed");
    assert_eq!(p.message_id.as_deref(), Some("<reply-003@client-a.example>"));
    assert_eq!(p.in_reply_to.as_deref(), Some("<child-002@client-a.example>"));
    assert!(p.date.is_some());
}

#[test]
fn thread_key_prefers_references() {
    let p = Parsed {
        references: vec!["<root@x>".into(), "<child@x>".into()],
        in_reply_to: Some("<child@x>".into()),
        subject: "Re: hi".into(),
        ..Default::default()
    };
    assert_eq!(thread_key(&p), "<root@x>");
    let p2 = Parsed {
        subject: "Re: hi".into(),
        ..Default::default()
    };
    assert_eq!(thread_key(&p2), "subj:hi");
    let p3 = Parsed {
        in_reply_to: Some("<parent@x>".into()),
        from: Some(Address { name: None, email: "a@x".into() }),
        ..Default::default()
    };
    assert_eq!(thread_key(&p3), "<parent@x>");
}

#[test]
fn snippet_collapses_whitespace() {
    assert_eq!(snippet("a\n\n  b   c", 10), "a b c");
    assert_eq!(snippet("あいうえお", 3), "あいう");
}

#[test]
fn strip_quotes_and_signature_keeps_short_dash_words() {
    let text = "試してください。\n--force で強制上書きできます。\n続きの文章。";
    assert_eq!(strip_quotes_and_signature(text), text);
}

#[test]
fn strip_quotes_and_signature_drops_original_message_marker() {
    let text = "承知しました。\n-----Original Message-----\nFrom: someone\n本文";
    assert_eq!(strip_quotes_and_signature(text), "承知しました。");
}

#[test]
fn strip_quotes_and_signature_drops_signature() {
    let text = "本文です。\n-- \n田中 太郎";
    assert_eq!(strip_quotes_and_signature(text), "本文です。");
}

#[test]
fn strip_quotes_and_signature_drops_quote_lines() {
    let text = "返信です。\n> 元のメールの行\n  > インデントされた引用";
    assert_eq!(strip_quotes_and_signature(text), "返信です。");
}

#[test]
fn html_to_plain_text_collapses_long_blank_runs() {
    assert_eq!(html_to_plain_text("<p>a</p>\n\n\n\n<p>b</p>"), "a\n\nb");
    assert_eq!(html_to_plain_text("x &lt;y&gt; &amp;amp;"), "x <y> &amp;");
}

#[test]
fn snippets_are_collapsed_prefixes_of_longer_snippets() {
    let t = "  lead\n\n two   words\tand\u{3000}more  ";
    let long = snippet(t, 100);
    assert_eq!(long, "lead two words and more");
    for n in 0..30 {
        let r = snippet(t, n);
        assert!(r.chars().count() <= n);
        assert!(!r.starts_with(char::is_whitespace));
        assert!(r.chars().all(|c| c == ' ' || !c.is_whitespace()));
        assert!(!r.contains("  "));
        assert!(long.starts_with(r.as_str()));
    }
}
