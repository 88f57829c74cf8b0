use meowbox::engine::sanitize_folder;
use meowbox::fsname::sanitize_path_segment;

#[test]
fn sanitize_path_segment_keeps_safe_names() {
    assert_eq!(sanitize_path_segment("INBOX.送信済み"), "INBOX.送信済み");
}

#[test]
fn sanitize_path_segment_replaces_reserved_characters() {
    assert_eq!(sanitize_path_segment("INBOX/Sent"), "INBOX_Sent");
    assert_eq!(
        sanitize_path_segment("a\\b:c*d?e\"f<g>h|i"),
        "a_b_c_d_e_f_g_h_i"
    );
}

#[test]
fn sanitize_path_segment_rejects_dot_only_names() {
    assert_ne!(sanitize_path_segment(".."), "..");
    assert_ne!(sanitize_path_segment("."), ".");
    assert_ne!(sanitize_path_segment(""), "");
}

#[test]
fn sanitize_path_segment_replaces_empty_name() {
    assert_eq!(sanitize_path_segment(""), "_");
}

#[test]
fn sanitize_path_segment_replaces_single_dot() {
    assert_eq!(sanitize_path_segment("."), "_");
}

#[test]
fn sanitize_path_segment_replaces_double_dot() {
    assert_eq!(sanitize_path_segment(".."), "__");
}

#[test]
fn sanitize_path_segment_replaces_path_traversal_attempt() {
    assert_eq!(sanitize_path_segment("../.."), ".._..");
}

#[test]
fn sanitize_path_segment_keeps_japanese_folder_name() {
    assert_eq!(sanitize_path_segment("案件A"), "案件A");
}

#[test]
fn sanitize_path_segment_replaces_slash_in_attachment_name() {
    assert_eq!(sanitize_path_segment("a/b.txt"), "a_b.txt");
}

#[test]
fn sanitize_path_segment_replaces_control_characters() {
    assert_eq!(sanitize_path_segment("a\u{7}b\nc"), "a_b_c");
}

#[test]
fn sanitizing_twice_changes_nothing() {
    for s in ["", ".", "..", "../..", "a/b", "案件A", "x\u{0}y"] {
        let once = sanitize_path_segment(s);
        assert_eq!(sanitize_path_segment(&once), once);
    }
}

#[test]
fn sanitize_folder_keeps_safe_names() {
    assert_eq!(sanitize_folder("INBOX.送信済み"), "INBOX.送信済み");
}

#[test]
fn sanitize_folder_replaces_reserved_characters() {
    assert_eq!(sanitize_folder("INBOX/Sent"), "INBOX_Sent");
    assert_eq!(sanitize_folder("a\\b:c*d?e\"f<g>h|i"), "a_b_c_d_e_f_g_h_i");
}

#[test]
fn sanitize_folder_rejects_dot_only_names() {
    assert_ne!(sanitize_folder(".."), "..");
    assert_ne!(sanitize_folder("."), ".");
    assert_ne!(sanitize_folder(""), "");
}
