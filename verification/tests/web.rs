use ftp_sync::web::{api_form, api_reply, api_url, reply_text};

#[test]
fn api_reply_done_is_ok() {
    assert_eq!(api_reply(b"Done."), Ok(()));
}

#[test]
fn api_reply_other_text_is_refused() {
    assert_eq!(api_reply(b"Done"), Err(()));
    assert_eq!(api_reply(b"Done.\n"), Err(()));
    assert_eq!(api_reply(b""), Err(()));
    assert_eq!(api_reply("Döne.".as_bytes()), Err(()));
}

#[test]
fn reply_text_decodes_utf8() {
    assert_eq!(reply_text("ftp.host".as_bytes()), "ftp.host");
    assert_eq!(reply_text("grüß".as_bytes()), "grüß");
    assert_eq!(reply_text(&[0x66, 0xc3, 0xbc, 0x72]), "für");
}

#[test]
fn api_url_appends_script() {
    assert_eq!(api_url("https://example.org/"), "https://example.org/api.php");
}

#[test]
fn api_form_paths() {
    let f = api_form("/tmp/up", "/in", "x.pdf");
    assert_eq!(f.fullpath, "/tmp/up/x.pdf");
    assert_eq!(f.ppath, "/in/x.pdf");
    let g = api_form("/", "/", "x.pdf");
    assert_eq!(g.fullpath, "/x.pdf");
    assert_eq!(g.ppath, "/x.pdf");
}
