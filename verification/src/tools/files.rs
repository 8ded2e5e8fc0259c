//! What a file is (text, image, binary), and the arguments and reports of
//! the read and write tools.
use vstd::prelude::*;
use vstd::utf8::{decode_utf8, valid_utf8};
use crate::json::{get_i64, get_str, spec_as_i64, spec_as_str, spec_get, Json};
use crate::text::{chars_of, extend_str, push_decimal, decimal, string_of};
use crate::tools::error::{ToolError, ToolErrorView};
use crate::tools::hashline::parse::{normalize_newlines, normalize_newlines_exec};

verus! {

/// A file as the read and edit tools see it.
#[derive(Debug)]
pub enum LoadedFile {
    Directory,
    Image(String),
    Binary(String),
    Text(String),
}

/// The byte-order mark.
pub open spec fn bom() -> char {
    '\u{feff}'
}

/// Text without a leading byte-order mark.
pub open spec fn strip_bom_spec(s: Seq<char>) -> Seq<char> {
    if s.len() > 0 && s[0] == bom() { s.drop_first() } else { s }
}

/// Removes a leading byte-order mark.
pub fn strip_bom(s: &Vec<char>) -> (r: Vec<char>)
    ensures
        r@ == strip_bom_spec(s@),
{
    if s.len() > 0 && s[0] == '\u{feff}' {
        let r = crate::text::slice_chars(s, 1, s.len());
        assert(r@ =~= s@.drop_first());
        r
    } else {
        crate::text::slice_chars(s, 0, s.len())
    }
}

/// Decodes UTF-8 with `String::from_utf8`, which accepts exactly the valid
/// encodings and keeps their characters.
#[verifier::external_body]
fn utf8_text(bytes: Vec<u8>) -> (r: Option<String>)
    ensures
        match r {
            Some(s) => valid_utf8(bytes@) && s@ == decode_utf8(bytes@),
            None => !valid_utf8(bytes@),
        },
{
    String::from_utf8(bytes).ok()
}

pub open spec fn starts_with_bytes(b: Seq<u8>, p: Seq<u8>) -> bool {
    p.len() <= b.len() && b.take(p.len() as int) == p
}

pub open spec fn png_magic() -> Seq<u8> {
    seq![0x89u8, 0x50u8, 0x4eu8, 0x47u8]
}

pub open spec fn jpeg_magic() -> Seq<u8> {
    seq![0xffu8, 0xd8u8, 0xffu8]
}

pub open spec fn gif87_magic() -> Seq<u8> {
    seq![0x47u8, 0x49u8, 0x46u8, 0x38u8, 0x37u8, 0x61u8]
}

pub open spec fn gif89_magic() -> Seq<u8> {
    seq![0x47u8, 0x49u8, 0x46u8, 0x38u8, 0x39u8, 0x61u8]
}

pub open spec fn riff_magic() -> Seq<u8> {
    seq![0x52u8, 0x49u8, 0x46u8, 0x46u8]
}

pub open spec fn webp_magic() -> Seq<u8> {
    seq![0x57u8, 0x45u8, 0x42u8, 0x50u8]
}

/// The image type that a file's first bytes announce, if any.
pub open spec fn image_kind(b: Seq<u8>) -> Option<Seq<char>> {
    if starts_with_bytes(b, png_magic()) {
        Some("image/png"@)
    } else if starts_with_bytes(b, jpeg_magic()) {
        Some("image/jpeg"@)
    } else if starts_with_bytes(b, gif87_magic()) || starts_with_bytes(b, gif89_magic()) {
        Some("image/gif"@)
    } else if b.len() >= 12 && b.subrange(0, 4) == riff_magic() && b.subrange(8, 12) == webp_magic() {
        Some("image/webp"@)
    } else {
        None
    }
}

/// A loaded file as data: `0` directory, `1` image, `2` binary, `3` text,
/// with its description or text.
pub open spec fn loaded_view(f: LoadedFile) -> (int, Seq<char>) {
    match f {
        LoadedFile::Directory => (0, Seq::empty()),
        LoadedFile::Image(m) => (1, m@),
        LoadedFile::Binary(d) => (2, d@),
        LoadedFile::Text(t) => (3, t@),
    }
}

/// What the bytes of a regular file are: an image by its magic bytes;
/// binary when it holds a zero byte or is not UTF-8; else its text, without
/// a byte-order mark and with line endings normalized to `'\n'`.
pub open spec fn classify_spec(b: Seq<u8>) -> (int, Seq<char>) {
    match image_kind(b) {
        Some(m) => (1, m),
        None => if b.contains(0u8) {
            (2, "null bytes detected"@)
        } else if !valid_utf8(b) {
            (2, "invalid UTF-8"@)
        } else {
            (3, normalize_newlines(strip_bom_spec(decode_utf8(b))))
        },
    }
}

fn has_bytes_prefix(b: &Vec<u8>, p: &[u8]) -> (r: bool)
    ensures
        r == starts_with_bytes(b@, p@),
{
    if p.len() > b.len() {
        return false;
    }
    let mut i: usize = 0;
    while i < p.len()
        invariant
            i <= p.len() <= b.len(),
            forall|k: int| 0 <= k < i ==> b@[k] == p@[k],
        decreases p.len() - i,
    {
        if b[i] != p[i] {
            assert(b@.take(p.len() as int)[i as int] != p@[i as int]);
            return false;
        }
        i += 1;
    }
    assert(b@.take(p.len() as int) =~= p@);
    true
}

fn bytes_at(b: &Vec<u8>, from: usize, p: &[u8]) -> (r: bool)
    requires
        from + p.len() <= b.len(),
    ensures
        r == (b@.subrange(from as int, from + p.len()) == p@),
{
    let mut i: usize = 0;
    while i < p.len()
        invariant
            i <= p.len(),
            from + p.len() <= b.len(),
            forall|k: int| 0 <= k < i ==> b@[from + k] == p@[k],
        decreases p.len() - i,
    {
        if b[from + i] != p[i] {
            assert(b@.subrange(from as int, from + p.len())[i as int] != p@[i as int]);
            return false;
        }
        i += 1;
    }
    assert(b@.subrange(from as int, from + p.len()) =~= p@);
    true
}

fn image_kind_exec(b: &Vec<u8>) -> (r: Option<String>)
    ensures
        match image_kind(b@) {
            Some(m) => r matches Some(s) && s@ == m,
            None => r is None,
        },
{
    let png: [u8; 4] = [0x89, 0x50, 0x4e, 0x47];
    let jpeg: [u8; 3] = [0xff, 0xd8, 0xff];
    let gif87: [u8; 6] = [0x47, 0x49, 0x46, 0x38, 0x37, 0x61];
    let gif89: [u8; 6] = [0x47, 0x49, 0x46, 0x38, 0x39, 0x61];
    let riff: [u8; 4] = [0x52, 0x49, 0x46, 0x46];
    let webp: [u8; 4] = [0x57, 0x45, 0x42, 0x50];
    assert(png@ =~= png_magic());
    assert(jpeg@ =~= jpeg_magic());
    assert(gif87@ =~= gif87_magic());
    assert(gif89@ =~= gif89_magic());
    assert(riff@ =~= riff_magic());
    assert(webp@ =~= webp_magic());
    if has_bytes_prefix(b, png.as_slice()) {
        Some("image/png".to_string())
    } else if has_bytes_prefix(b, jpeg.as_slice()) {
        Some("image/jpeg".to_string())
    } else if has_bytes_prefix(b, gif87.as_slice()) || has_bytes_prefix(b, gif89.as_slice()) {
        Some("image/gif".to_string())
    } else if b.len() >= 12 && bytes_at(b, 0, riff.as_slice()) && bytes_at(b, 8, webp.as_slice()) {
        Some("image/webp".to_string())
    } else {
        None
    }
}

fn has_zero(b: &Vec<u8>) -> (r: bool)
    ensures
        r == b@.contains(0u8),
{
    let mut i: usize = 0;
    while i < b.len()
        invariant
            i <= b.len(),
            forall|k: int| 0 <= k < i ==> b@[k] != 0u8,
        decreases b.len() - i,
    {
        if b[i] == 0 {
            assert(b@[i as int] == 0u8);
            return true;
        }
        i += 1;
    }
    false
}

/// Classifies the bytes of a regular file.
pub fn classify_bytes(bytes: Vec<u8>) -> (r: LoadedFile)
    ensures
        loaded_view(r) == classify_spec(bytes@),
{
    match image_kind_exec(&bytes) {
        Some(m) => return LoadedFile::Image(m),
        None => {},
    }
    if has_zero(&bytes) {
        return LoadedFile::Binary("null bytes detected".to_string());
    }
    let ghost b = bytes@;
    match utf8_text(bytes) {
        None => LoadedFile::Binary("invalid UTF-8".to_string()),
        Some(s) => {
            let c = chars_of(s.as_str());
            let nb = strip_bom(&c);
            let n = normalize_newlines_exec(&nb);
            LoadedFile::Text(string_of(&n))
        },
    }
}

// ---------------------------------------------------------------------------
// The read tool
// ---------------------------------------------------------------------------

/// The read tool.
#[derive(Debug)]
pub struct ReadTool;

/// The write tool.
#[derive(Debug)]
pub struct WriteTool;

pub open spec fn msg_missing_path() -> Seq<char> {
    "Missing required 'path' argument"@
}

/// The arguments of a read: the path, the first line (1 unless given), and
/// the number of lines, if given; both numbers must be positive.
pub open spec fn read_args_spec(a: Json) -> Result<(Seq<char>, i64, Option<i64>), ToolErrorView> {
    match spec_as_str(spec_get(a, "path"@)) {
        None => Err(ToolErrorView::InvalidArguments(msg_missing_path())),
        Some(p) => {
            let offset: i64 = match spec_as_i64(spec_get(a, "offset"@)) {
                Some(o) => o,
                None => 1,
            };
            let limit = spec_as_i64(spec_get(a, "limit"@));
            if offset < 1 {
                Err(ToolErrorView::InvalidArguments("Read request field \"offset\" must be a positive integer."@))
            } else if limit matches Some(l) && l < 1 {
                Err(ToolErrorView::InvalidArguments("Read request field \"limit\" must be a positive integer."@))
            } else {
                Ok((p, offset, limit))
            }
        },
    }
}

/// The arguments of a read.
pub fn read_args(arguments: &Json) -> (r: Result<(String, i64, Option<i64>), ToolError>)
    ensures
        match read_args_spec(*arguments) {
            Err(x) => r matches Err(e) && e@ == x,
            Ok((p, o, l)) => r matches Ok(v) && v.0@ == p && v.1 == o && v.2 == l,
        },
{
    let p = match get_str(arguments, "path") {
        None => return Err(ToolError::InvalidArguments("Missing required 'path' argument".to_string())),
        Some(p) => p,
    };
    let offset: i64 = match get_i64(arguments, "offset") {
        Some(o) => o,
        None => 1,
    };
    if offset < 1 {
        return Err(ToolError::InvalidArguments("Read request field \"offset\" must be a positive integer.".to_string()));
    }
    let limit = get_i64(arguments, "limit");
    match limit {
        Some(l) => {
            if l < 1 {
                return Err(ToolError::InvalidArguments("Read request field \"limit\" must be a positive integer.".to_string()));
            }
        },
        None => {},
    }
    Ok((string_of(&chars_of(p)), offset, limit))
}

/// The text of a file that the read tool can show, or why it cannot.
pub open spec fn read_text_spec(path: Seq<char>, f: (int, Seq<char>)) -> Result<Seq<char>, ToolErrorView> {
    if f.0 == 0 {
        Err(ToolErrorView::EditFailed("[E_DIRECTORY] Path is a directory: "@ + path + ". Use find/ls-style tools to inspect directories."@))
    } else if f.0 == 1 {
        Err(ToolErrorView::EditFailed("[E_BINARY_FILE] Path is an image file ("@ + f.1 + "); hashline read only supports UTF-8 text files."@))
    } else if f.0 == 2 {
        Err(ToolErrorView::EditFailed("[E_BINARY_FILE] Path is a binary file: "@ + path + " ("@ + f.1 + "). Hashline read only supports UTF-8 text files."@))
    } else {
        Ok(f.1)
    }
}

fn cat3(a: &str, b: &str, c: &str) -> (r: String)
    ensures
        r@ == a@ + b@ + c@,
{
    let mut v: Vec<char> = Vec::new();
    extend_str(&mut v, a);
    extend_str(&mut v, b);
    extend_str(&mut v, c);
    string_of(&v)
}

fn cat5(a: &str, b: &str, c: &str, d: &str, e: &str) -> (r: String)
    ensures
        r@ == a@ + b@ + c@ + d@ + e@,
{
    let mut v: Vec<char> = Vec::new();
    extend_str(&mut v, a);
    extend_str(&mut v, b);
    extend_str(&mut v, c);
    extend_str(&mut v, d);
    extend_str(&mut v, e);
    string_of(&v)
}

/// The text of a file for the read tool.
pub fn read_text(path: &str, f: LoadedFile) -> (r: Result<String, ToolError>)
    ensures
        match read_text_spec(path@, loaded_view(f)) {
            Err(x) => r matches Err(e) && e@ == x,
            Ok(t) => r matches Ok(s) && s@ == t,
        },
{
    match f {
        LoadedFile::Text(t) => Ok(t),
        LoadedFile::Directory => Err(ToolError::EditFailed(cat3(
            "[E_DIRECTORY] Path is a directory: ",
            path,
            ". Use find/ls-style tools to inspect directories.",
        ))),
        LoadedFile::Image(m) => Err(ToolError::EditFailed(cat3(
            "[E_BINARY_FILE] Path is an image file (",
            m.as_str(),
            "); hashline read only supports UTF-8 text files.",
        ))),
        LoadedFile::Binary(d) => Err(ToolError::EditFailed(cat5(
            "[E_BINARY_FILE] Path is a binary file: ",
            path,
            " (",
            d.as_str(),
            "). Hashline read only supports UTF-8 text files.",
        ))),
    }
}

/// The text of a file that the edit tool can change, or why it cannot.
pub open spec fn edit_text_spec(path: Seq<char>, f: (int, Seq<char>)) -> Result<Seq<char>, ToolErrorView> {
    if f.0 == 0 {
        Err(ToolErrorView::EditFailed("[E_DIRECTORY] Path is a directory: "@ + path))
    } else if f.0 == 1 {
        Err(ToolErrorView::EditFailed("[E_BINARY_FILE] Path is an image file ("@ + f.1 + "); hashline_edit only supports UTF-8 text."@))
    } else if f.0 == 2 {
        Err(ToolErrorView::EditFailed("[E_BINARY_FILE] Path is a binary file: "@ + path + " ("@ + f.1 + ")"@))
    } else {
        Ok(f.1)
    }
}

/// The text of a file for the edit tool.
pub fn edit_text(path: &str, f: LoadedFile) -> (r: Result<String, ToolError>)
    ensures
        match edit_text_spec(path@, loaded_view(f)) {
            Err(x) => r matches Err(e) && e@ == x,
            Ok(t) => r matches Ok(s) && s@ == t,
        },
{
    proof {
        reveal_strlit("");
    }
    match f {
        LoadedFile::Text(t) => Ok(t),
        LoadedFile::Directory => {
            let m = cat3("[E_DIRECTORY] Path is a directory: ", path, "");
            assert(m@ =~= "[E_DIRECTORY] Path is a directory: "@ + path@);
            Err(ToolError::EditFailed(m))
        },
        LoadedFile::Image(m) => Err(ToolError::EditFailed(cat3(
            "[E_BINARY_FILE] Path is an image file (",
            m.as_str(),
            "); hashline_edit only supports UTF-8 text.",
        ))),
        LoadedFile::Binary(d) => Err(ToolError::EditFailed(cat5(
            "[E_BINARY_FILE] Path is a binary file: ",
            path,
            " (",
            d.as_str(),
            ")",
        ))),
    }
}

// ---------------------------------------------------------------------------
// The write tool
// ---------------------------------------------------------------------------

/// The arguments of a write: the path and the content.
pub open spec fn write_args_spec(a: Json) -> Result<(Seq<char>, Seq<char>), ToolErrorView> {
    match spec_as_str(spec_get(a, "path"@)) {
        None => Err(ToolErrorView::InvalidArguments(msg_missing_path())),
        Some(p) => match spec_as_str(spec_get(a, "content"@)) {
            None => Err(ToolErrorView::InvalidArguments("Missing required 'content' argument"@)),
            Some(c) => Ok((p, c)),
        },
    }
}

/// The arguments of a write.
pub fn write_args(arguments: &Json) -> (r: Result<(String, String), ToolError>)
    ensures
        match write_args_spec(*arguments) {
            Err(x) => r matches Err(e) && e@ == x,
            Ok((p, c)) => r matches Ok(v) && v.0@ == p && v.1@ == c,
        },
{
    let p = match get_str(arguments, "path") {
        None => return Err(ToolError::InvalidArguments("Missing required 'path' argument".to_string())),
        Some(p) => p,
    };
    let c = match get_str(arguments, "content") {
        None => return Err(ToolError::InvalidArguments("Missing required 'content' argument".to_string())),
        Some(c) => c,
    };
    Ok((string_of(&chars_of(p)), string_of(&chars_of(c))))
}

/// The report of a write.
pub open spec fn write_report_spec(bytes: nat, path: Seq<char>) -> Seq<char> {
    "Wrote "@ + decimal(bytes) + " bytes to '"@ + path + "'"@
}

/// The report of a write of `bytes` bytes to `path`.
pub fn write_report(bytes: usize, path: &str) -> (r: String)
    ensures
        r@ == write_report_spec(bytes as nat, path@),
{
    let mut v: Vec<char> = Vec::new();
    extend_str(&mut v, "Wrote ");
    push_decimal(&mut v, bytes);
    extend_str(&mut v, " bytes to '");
    extend_str(&mut v, path);
    extend_str(&mut v, "'");
    string_of(&v)
}

} // verus!
