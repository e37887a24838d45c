//! Save-path handling: filename validation, default timestamp names, and
//! the full pathname an image is persisted under.

use vstd::prelude::*;
use vstd::string::{StrSliceExecFns, StringExecFns};

verus! {

/// The characters a filename must not contain.
pub open spec fn forbidden_char(c: char) -> bool {
    c == '\\' || c == '/' || c == ':' || c == '*' || c == '?' || c == '"' || c == '<' || c == '>'
        || c == '|'
}

/// A filename is valid when it holds none of the forbidden characters.
pub open spec fn filename_valid(s: Seq<char>) -> bool {
    forall|i: int| 0 <= i < s.len() ==> !forbidden_char(#[trigger] s[i])
}

/// Decide validity of a filename.
pub fn check_filename(name: &str) -> (r: bool)
    ensures
        r == filename_valid(name@),
{
    let n = name.unicode_len();
    let mut i: usize = 0;
    while i < n
        invariant
            n == name@.len(),
            i <= n,
            forall|k: int| 0 <= k < i ==> !forbidden_char(#[trigger] name@[k]),
        decreases n - i,
    {
        let c = name.get_char(i);
        if c == '\\' || c == '/' || c == ':' || c == '*' || c == '?' || c == '"' || c == '<' || c
            == '>' || c == '|' {
            proof {
                assert(forbidden_char(name@[i as int]));
            }
            return false;
        }
        i = i + 1;
    }
    true
}

/// The characters a formatted timestamp consists of.
pub open spec fn timestamp_char(c: char) -> bool {
    ('0' <= c && c <= '9') || c == '-' || c == 'T' || c == '_'
}

/// The last second the timestamp formatter accepts: the end of year 9999,
/// so the formatted year is always four sign-free digits.
pub const MAX_TIMESTAMP_SECS: u64 = 253_402_300_799;

/// Relies on `std::time::SystemTime::now`: the seconds since the Unix
/// epoch, or `None` on a clock set before the epoch. Nothing is promised of
/// the value.
#[verifier::external_body]
fn unix_seconds_now() -> Option<u64> {
    match std::time::SystemTime::now().duration_since(std::time::UNIX_EPOCH) {
        Ok(d) => Some(d.as_secs()),
        Err(_) => None,
    }
}

/// Relies on `chrono::DateTime::from_timestamp` and `DateTime::format` with
/// a year-month-day, hour-minute-second pattern: for any second count up to
/// the end of year 9999 the conversion succeeds, the year is written as
/// four digits without a sign, and the output is non-empty and made of
/// digits and the separators `-`, `T` and `_` only.
#[verifier::external_body]
fn format_timestamp(secs: u64) -> (r: String)
    requires
        secs <= MAX_TIMESTAMP_SECS,
    ensures
        r@.len() > 0,
        forall|i: int| 0 <= i < r@.len() ==> timestamp_char(#[trigger] r@[i]),
{
    let t = chrono::DateTime::<chrono::Utc>::from_timestamp(secs as i64, 0).unwrap();
    t.format("%Y-%m-%dT%H_%M_%S").to_string()
}

/// Timestamp characters never include a forbidden filename character.
pub proof fn lemma_timestamp_filename(s: Seq<char>)
    requires
        forall|i: int| 0 <= i < s.len() ==> timestamp_char(#[trigger] s[i]),
    ensures
        filename_valid(s),
{
    assert forall|i: int| 0 <= i < s.len() implies !forbidden_char(#[trigger] s[i]) by {
        assert(timestamp_char(s[i]));
    }
}

/// A default filename from the current time: always a non-empty,
/// timestamp-shaped, valid filename. A clock before the epoch or past year
/// 9999 falls back to the nearest representable second.
pub fn generate_filename() -> (r: String)
    ensures
        r@.len() > 0,
        filename_valid(r@),
        forall|i: int| 0 <= i < r@.len() ==> timestamp_char(#[trigger] r@[i]),
{
    let secs: u64 = match unix_seconds_now() {
        Some(s) => if s > MAX_TIMESTAMP_SECS {
            MAX_TIMESTAMP_SECS
        } else {
            s
        },
        None => 0,
    };
    let r = format_timestamp(secs);
    proof {
        lemma_timestamp_filename(r@);
    }
    r
}

/// The image formats a capture can be persisted as.
#[derive(Clone, Copy, Debug, PartialEq, Eq, Structural)]
pub enum ImgFormats {
    PNG,
    JPEG,
    GIF,
}

/// The file extension of a format.
pub open spec fn format_extension(f: ImgFormats) -> Seq<char> {
    match f {
        ImgFormats::PNG => seq!['.', 'p', 'n', 'g'],
        ImgFormats::JPEG => seq!['.', 'j', 'p', 'e', 'g'],
        ImgFormats::GIF => seq!['.', 'g', 'i', 'f'],
    }
}

/// Where and under what name the next image is saved.
pub struct SavePath {
    /// Destination directory.
    pub path: String,
    /// Filename without extension.
    pub name: String,
    pub format: ImgFormats,
    /// Whether the user replaced the generated name.
    pub user_mod_name: bool,
}

impl SavePath {
    /// A save target in the given directory, named after the current time.
    pub fn new(path: String, format: ImgFormats) -> (r: SavePath)
        ensures
            r.path@ == path@,
            r.format == format,
            r.user_mod_name == false,
            r.name@.len() > 0,
            filename_valid(r.name@),
            forall|i: int| 0 <= i < r.name@.len() ==> timestamp_char(#[trigger] r.name@[i]),
    {
        let name = generate_filename();
        SavePath { path, name, format, user_mod_name: false }
    }
}

/// The full pathname an image is saved under: directory, separator, name,
/// extension.
pub open spec fn pathname_spec(p: SavePath) -> Seq<char> {
    p.path@ + seq!['/'] + p.name@ + format_extension(p.format)
}

/// Build the full pathname.
pub fn save_pathname(p: &SavePath) -> (r: String)
    ensures
        r@ == pathname_spec(*p),
{
    let mut out = p.path.clone();
    out.append("/");
    out.append(p.name.as_str());
    match p.format {
        ImgFormats::PNG => out.append(".png"),
        ImgFormats::JPEG => out.append(".jpeg"),
        ImgFormats::GIF => out.append(".gif"),
    }
    proof {
        reveal_strlit("/");
        reveal_strlit(".png");
        reveal_strlit(".jpeg");
        reveal_strlit(".gif");
        assert(out@ =~= pathname_spec(*p));
    }
    out
}

} // verus!
