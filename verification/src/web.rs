use vstd::prelude::*;
use vstd::utf8::{
    decode_utf8, encode_scalar, encode_utf8, encode_utf8_decode_utf8, encode_utf8_valid_utf8,
    decode_utf8_encode_utf8, valid_utf8,
};

use crate::text::{join_path, joined};

verus! {

/// Decodes bytes as UTF-8 text with `std::str::from_utf8`.
///
/// Trusted: `from_utf8` is believed to accept exactly the byte sequences that
/// vstd's `valid_utf8` accepts and to give the characters that `decode_utf8`
/// gives for them; the error it returns otherwise is dropped.
#[verifier::external_body]
fn utf8_text(bytes: &[u8]) -> (r: Option<&str>)
    ensures
        r is Some <==> valid_utf8(bytes@),
        r matches Some(s) ==> s@ == decode_utf8(bytes@),
{
    std::str::from_utf8(bytes).ok()
}

/// The text of a reply. A reply that is not UTF-8 is no text: the caller
/// stops before asking.
pub fn reply_text(body: &[u8]) -> (r: String)
    requires
        valid_utf8(body@),
    ensures
        r@ == decode_utf8(body@),
{
    match utf8_text(body) {
        Some(s) => String::from_str(s),
        None => String::new(),
    }
}

/// The reply of the upload service that confirms an upload.
pub open spec fn done_text() -> Seq<char> {
    seq!['D', 'o', 'n', 'e', '.']
}

/// The bytes of the confirmation `Done.`.
pub open spec fn done_bytes() -> Seq<u8> {
    seq![68u8, 111u8, 110u8, 101u8, 46u8]
}

proof fn lemma_ascii_scalar(v: u32)
    requires
        v <= 0x7f,
    ensures
        encode_scalar(v) == seq![v as u8],
{
    assert(v & 0x7f == v) by (bit_vector)
        requires
            v <= 0x7f,
    ;
}

/// A reply reads `Done.` exactly when its bytes are those of `Done.`.
pub proof fn lemma_done_reply_bytes(body: Seq<u8>)
    ensures
        (valid_utf8(body) && decode_utf8(body) == done_text()) <==> body == done_bytes(),
{
    let d = done_text();
    lemma_ascii_scalar('D' as u32);
    lemma_ascii_scalar('o' as u32);
    lemma_ascii_scalar('n' as u32);
    lemma_ascii_scalar('e' as u32);
    lemma_ascii_scalar('.' as u32);
    reveal_with_fuel(encode_utf8, 6);
    assert(d.drop_first() =~= seq!['o', 'n', 'e', '.']);
    assert(d.drop_first().drop_first() =~= seq!['n', 'e', '.']);
    assert(d.drop_first().drop_first().drop_first() =~= seq!['e', '.']);
    assert(d.drop_first().drop_first().drop_first().drop_first() =~= seq!['.']);
    assert(d.drop_first().drop_first().drop_first().drop_first().drop_first() =~= Seq::<char>::empty());
    assert(encode_utf8(d) =~= done_bytes());
    encode_utf8_valid_utf8(d);
    encode_utf8_decode_utf8(d);
    if valid_utf8(body) {
        decode_utf8_encode_utf8(body);
    }
}

/// Reads the reply of the upload service, which must be UTF-8 text: the
/// upload succeeded exactly when the reply is the text `Done.`.
pub fn api_reply(body: &[u8]) -> (r: Result<(), ()>)
    requires
        valid_utf8(body@),
    ensures
        r is Ok <==> decode_utf8(body@) == done_text(),
        r is Ok <==> body@ == done_bytes(),
{
    proof {
        lemma_done_reply_bytes(body@);
    }
    let text = reply_text(body);
    let done = String::from_str("Done.");
    proof {
        reveal_strlit("Done.");
        assert("Done."@ =~= done_text());
    }
    if text == done {
        Ok(())
    } else {
        Err(())
    }
}

/// The address of the upload service under its base address.
pub fn api_url(base: &str) -> (r: String)
    ensures
        r@ == base@ + seq!['a', 'p', 'i', '.', 'p', 'h', 'p'],
{
    let mut r = String::from_str(base);
    r.append("api.php");
    proof {
        reveal_strlit("api.php");
        assert("api.php"@ =~= seq!['a', 'p', 'i', '.', 'p', 'h', 'p']);
    }
    r
}

/// The two paths an upload names: the local file to send, and the path the
/// file had on the server.
pub struct ApiForm {
    pub fullpath: String,
    pub ppath: String,
}

/// The paths of an upload: the file in the upload folder, and the file in its
/// folder on the server.
pub fn api_form(upload_dir: &str, folder: &str, filename: &str) -> (form: ApiForm)
    ensures
        form.fullpath@ == joined(upload_dir@, filename@),
        form.ppath@ == joined(folder@, filename@),
{
    ApiForm { fullpath: join_path(upload_dir, filename), ppath: join_path(folder, filename) }
}

} // verus!
