//! Request and response text of the file server that feeds the pool: the
//! requested path, the content type of a file, and the response bytes.
use crate::text::{decimal, decimal_string, same_text};
use vstd::prelude::*;
use vstd::utf8::encode_utf8;

verus! {

/// The address to listen on by default: loopback in a debug build, every
/// interface otherwise.
pub open spec fn default_address(debug_build: bool) -> Seq<char> {
    if debug_build {
        "127.0.0.1"@
    } else {
        "0.0.0.0"@
    }
}

/// Default listening address for a debug (`true`) or release build.
pub fn get_ip_address(debug_build: bool) -> (r: String)
    ensures
        r@ == default_address(debug_build),
{
    if debug_build {
        String::from_str("127.0.0.1")
    } else {
        String::from_str("0.0.0.0")
    }
}

/// Whether `../` starts at position `i` of `s`.
pub open spec fn parent_step_at(s: Seq<char>, i: int) -> bool {
    0 <= i && i + 3 <= s.len() && s[i] == '.' && s[i + 1] == '.' && s[i + 2] == '/'
}

/// Whether `s` holds the step `../` somewhere.
pub open spec fn has_parent_step(s: Seq<char>) -> bool {
    exists|i: int| parent_step_at(s, i)
}

/// Whether `s` ends with `/`.
pub open spec fn ends_with_slash(s: Seq<char>) -> bool {
    s.len() > 0 && s.last() == '/'
}

/// Whether `s` starts with `/`.
pub open spec fn starts_with_slash(s: Seq<char>) -> bool {
    s.len() > 0 && s[0] == '/'
}

/// A request path with the index file added to a directory and the leading
/// `/` removed.
pub open spec fn local_path(file: Seq<char>, index: Seq<char>) -> Seq<char> {
    let with_index = if ends_with_slash(file) {
        file + index
    } else {
        file
    };
    if starts_with_slash(with_index) {
        with_index.drop_first()
    } else {
        with_index
    }
}

/// The file that a request path names: a path that climbs with `../` is
/// answered by a fixed marker, any other by [`local_path`].
pub open spec fn resolved_path(file: Seq<char>, index: Seq<char>) -> Seq<char> {
    if has_parent_step(file) {
        "error_path_in_reverse"@
    } else {
        local_path(file, index)
    }
}

/// Whether `s` holds `../`.
pub fn contains_parent_step(s: &str) -> (r: bool)
    ensures
        r == has_parent_step(s@),
{
    let n = s.unicode_len();
    if n < 3 {
        return false;
    }
    let mut i: usize = 0;
    while i <= n - 3
        invariant
            n == s@.len(),
            n >= 3,
            i <= n - 2,
            forall|j: int| j < i ==> !parent_step_at(s@, j),
        decreases n - i,
    {
        if s.get_char(i) == '.' && s.get_char(i + 1) == '.' && s.get_char(i + 2) == '/' {
            assert(parent_step_at(s@, i as int));
            return true;
        }
        i = i + 1;
    }
    false
}

/// Maps a request path to the file to serve, relative to the served
/// directory: `index_file_name` is added to a path ending in `/`, the
/// leading `/` is removed, and a path holding `../` gives the marker
/// `error_path_in_reverse`.
pub fn parse_file(file: &str, index_file_name: String) -> (r: String)
    ensures
        r@ == resolved_path(file@, index_file_name@),
{
    if contains_parent_step(file) {
        return String::from_str("error_path_in_reverse");
    }
    let mut path = String::from_str(file);
    let n = file.unicode_len();
    if n > 0 && file.get_char(n - 1) == '/' {
        path.append(index_file_name.as_str());
    }
    let p = path.as_str();
    let m = p.unicode_len();
    if m > 0 && p.get_char(0) == '/' {
        let rest = p.substring_char(1, m);
        assert(rest@ =~= path@.drop_first());
        String::from_str(rest)
    } else {
        path
    }
}

/// The content type served for a file extension.
pub open spec fn content_type_of(ext: Seq<char>) -> Seq<char> {
    if ext == "html"@ || ext == "htm"@ {
        "text/html"@
    } else if ext == "css"@ {
        "text/css"@
    } else if ext == "js"@ {
        "application/javascript"@
    } else if ext == "png"@ {
        "image/png"@
    } else if ext == "jpg"@ || ext == "jpeg"@ {
        "image/jpeg"@
    } else if ext == "gif"@ {
        "image/gif"@
    } else {
        "application/octet-stream"@
    }
}

/// The content type served for a file whose extension is `ext`.
pub fn content_type_for_extension(ext: &str) -> (r: String)
    ensures
        r@ == content_type_of(ext@),
{
    if same_text(ext, "html") || same_text(ext, "htm") {
        String::from_str("text/html")
    } else if same_text(ext, "css") {
        String::from_str("text/css")
    } else if same_text(ext, "js") {
        String::from_str("application/javascript")
    } else if same_text(ext, "png") {
        String::from_str("image/png")
    } else if same_text(ext, "jpg") || same_text(ext, "jpeg") {
        String::from_str("image/jpeg")
    } else if same_text(ext, "gif") {
        String::from_str("image/gif")
    } else {
        String::from_str("application/octet-stream")
    }
}

/// What `Path::extension` gives for a path, as text; empty where there is
/// none.
pub uninterp spec fn extension_of(path: Seq<char>) -> Seq<char>;

/// Relies on `std::path::Path::extension`: the extension of the last
/// component of `path`, empty where it has none. The result depends on the
/// path alone; a `&str` is always valid UTF-8, so `to_str` never fails here.
#[verifier::external_body]
fn path_extension(path: &str) -> (r: String)
    ensures
        r@ == extension_of(path@),
{
    std::path::Path::new(path).extension().and_then(|e| e.to_str()).unwrap_or("").to_string()
}

/// The content type served for `file`, chosen by its extension.
pub fn get_content_type(file: &str) -> (r: String)
    ensures
        r@ == content_type_of(extension_of(file@)),
{
    let ext = path_extension(file);
    content_type_for_extension(ext.as_str())
}

/// The status line and header block that precede a body, up to and
/// including the blank line.
pub open spec fn header_text(
    code: nat,
    status: Seq<char>,
    content_type: Seq<char>,
    body_len: nat,
) -> Seq<char> {
    "HTTP/1.1 "@ + decimal(code) + " "@ + status + "\r\nContent-Type: "@ + content_type
        + "\r\nContent-Length: "@ + decimal(body_len) + "\r\n\r\n"@
}

/// An HTTP response with a content type: the header block, encoded as
/// UTF-8, followed by the body bytes as they are.
pub fn get_response_with_content_type(
    code: u16,
    status_line_message: &str,
    message: Vec<u8>,
    content_type: &str,
) -> (r: Vec<u8>)
    ensures
        r@ == encode_utf8(
            header_text(code as nat, status_line_message@, content_type@, message@.len()),
        ) + message@,
{
    let mut message = message;
    let mut headers = String::from_str("HTTP/1.1 ");
    let code_text = decimal_string(code as usize);
    headers.append(code_text.as_str());
    headers.append(" ");
    headers.append(status_line_message);
    headers.append("\r\nContent-Type: ");
    headers.append(content_type);
    headers.append("\r\nContent-Length: ");
    let len_text = decimal_string(message.len());
    headers.append(len_text.as_str());
    headers.append("\r\n\r\n");
    let mut response = headers.as_str().as_bytes_vec();
    let ghost header_bytes = response@;
    let ghost body = message@;
    response.append(&mut message);
    assert(headers@ =~= header_text(
        code as nat,
        status_line_message@,
        content_type@,
        body.len(),
    ));
    response
}

/// A plain HTTP response: status line, a length header giving the body's
/// size in bytes, a blank line, then the body.
pub open spec fn response_text(code: nat, status: Seq<char>, body: Seq<char>) -> Seq<char> {
    "HTTP/1.1 "@ + decimal(code) + " "@ + status + "\r\nContext-Length: "@ + decimal(
        encode_utf8(body).len(),
    ) + "\r\n\r\n"@ + body
}

/// A plain HTTP response carrying `message` as its body.
pub fn get_response(code: u16, status_line_message: &str, message: String) -> (r: String)
    requires
        encode_utf8(message@).len() <= usize::MAX,
    ensures
        r@ == response_text(code as nat, status_line_message@, message@),
{
    let mut r = String::from_str("HTTP/1.1 ");
    let code_text = decimal_string(code as usize);
    r.append(code_text.as_str());
    r.append(" ");
    r.append(status_line_message);
    r.append("\r\nContext-Length: ");
    let byte_len = message.as_str().len();
    assert(byte_len == encode_utf8(message@).len());
    let len_text = decimal_string(byte_len);
    r.append(len_text.as_str());
    r.append("\r\n\r\n");
    r.append(message.as_str());
    assert(r@ =~= response_text(code as nat, status_line_message@, message@));
    r
}

} // verus!
