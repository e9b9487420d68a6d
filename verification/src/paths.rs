//! Paths, and the directories of the user.
//!
//! A path is a sequence of bytes: it need not be text.

use vstd::prelude::*;
use vstd::string::*;
use vstd::utf8::{
    decode_utf8, decode_utf8_encode_utf8, encode_utf8, encode_utf8_decode_utf8,
    encode_utf8_valid_utf8, valid_utf8,
};

use crate::text::{bytes_of, chars_of, string_of};

verus! {

broadcast use vstd::string::group_string_axioms;

/// The byte of the slash that parts the components of a path.
pub const SLASH: u8 = 47;

/// The bytes of an optional path.
pub open spec fn path_in(path: Option<Vec<u8>>) -> Option<Seq<u8>> {
    match path {
        Some(p) => Some(p@),
        None => None,
    }
}

/// The text that `String::from_utf8_lossy` makes of bytes that are no UTF-8.
pub uninterp spec fn repaired_text(bytes: Seq<u8>) -> Seq<char>;

/// A path as text: what it encodes where it is UTF-8, and the repaired text
/// elsewhere.
pub open spec fn path_text(path: Seq<u8>) -> Seq<char> {
    if valid_utf8(path) {
        decode_utf8(path)
    } else {
        repaired_text(path)
    }
}

/// A path as text, through `String::from_utf8_lossy`.
///
/// Bytes that are valid UTF-8 give the text that they encode. What is not valid
/// is replaced; the text that comes out then is named `repaired_text`.
#[verifier::external_body]
pub(crate) fn lossy_text(path: &Vec<u8>) -> (text: String)
    ensures
        text@ == if valid_utf8(path@) {
            decode_utf8(path@)
        } else {
            repaired_text(path@)
        },
{
    String::from_utf8_lossy(path).into_owned()
}

/// A path as text, for people to read.
pub fn shown_path(path: &Vec<u8>) -> (text: String)
    ensures
        text@ == path_text(path@),
{
    lossy_text(path)
}

/// A path below a directory. An absolute path takes the directory's place.
pub open spec fn joined(base: Seq<u8>, path: Seq<u8>) -> Seq<u8> {
    if path.len() > 0 && path[0] == SLASH {
        path
    } else if base.len() > 0 && base.last() != SLASH {
        base.push(SLASH) + path
    } else {
        base + path
    }
}

fn append_path(whole: &mut Vec<u8>, path: &Vec<u8>)
    ensures
        final(whole)@ == old(whole)@ + path@,
{
    let ghost before = whole@;
    let mut i: usize = 0;
    while i < path.len()
        invariant
            i <= path@.len(),
            whole@ == before + path@.take(i as int),
        decreases path@.len() - i,
    {
        whole.push(path[i]);
        i = i + 1;
    }
    assert(path@.take(i as int) =~= path@);
}

/// A copy of a path.
pub(crate) fn copied(path: &Vec<u8>) -> (copy: Vec<u8>)
    ensures
        copy@ == path@,
{
    let mut copy: Vec<u8> = Vec::new();
    append_path(&mut copy, path);
    assert(copy@ =~= path@);
    copy
}

/// A path below a directory.
pub fn join_path(base: &Vec<u8>, path: &Vec<u8>) -> (whole: Vec<u8>)
    ensures
        whole@ == joined(base@, path@),
{
    let mut whole: Vec<u8> = Vec::new();
    if path.len() > 0 && path[0] == SLASH {
        append_path(&mut whole, path);
        assert(whole@ =~= path@);
        return whole;
    }
    append_path(&mut whole, base);
    assert(whole@ =~= base@);
    if base.len() > 0 && base[base.len() - 1] != SLASH {
        whole.push(SLASH);
    }
    append_path(&mut whole, path);
    whole
}

/// A path that begins in the user's home.
pub open spec fn is_home_path(path: Seq<char>) -> bool {
    path.len() >= 2 && path[0] == '~' && path[1] == '/'
}

/// A path that is given as text, with the user's home spelled out where it
/// begins in it and the home is known.
pub open spec fn expanded(path: Seq<char>, home: Option<Seq<u8>>) -> Seq<u8> {
    match home {
        Some(h) if is_home_path(path) => joined(h, encode_utf8(path.skip(2))),
        _ => encode_utf8(path),
    }
}

/// A path, taken as text, with the user's home spelled out.
pub open spec fn expanded_path(path: Seq<u8>, home: Option<Seq<u8>>) -> Seq<u8> {
    expanded(path_text(path), home)
}

/// A path that is given as text, with the given home spelled out.
pub fn expand_home_in(path: &str, home: &Option<Vec<u8>>) -> (whole: Vec<u8>)
    ensures
        whole@ == expanded(path@, path_in(*home)),
{
    let chars = chars_of(path);
    if chars.len() >= 2 && chars[0] == '~' && chars[1] == '/' {
        if let Some(h) = home {
            let mut rest: Vec<char> = Vec::new();
            let mut i: usize = 2;
            while i < chars.len()
                invariant
                    2 <= i <= chars@.len(),
                    rest@ == chars@.subrange(2, i as int),
                decreases chars@.len() - i,
            {
                rest.push(chars[i]);
                i = i + 1;
            }
            assert(rest@ =~= path@.skip(2));
            return join_path(h, &bytes_of(string_of(&rest).as_str()));
        }
    }
    bytes_of(path)
}

/// A path, taken as text, with the given home spelled out.
pub fn expand_home_path_in(path: &Vec<u8>, home: &Option<Vec<u8>>) -> (whole: Vec<u8>)
    ensures
        whole@ == expanded_path(path@, path_in(*home)),
{
    let text = lossy_text(path);
    expand_home_in(text.as_str(), home)
}

/// The user's home, through `dirs::home_dir`, as the bytes of the path. It
/// depends on the environment, and nothing is stated of it.
#[verifier::external_body]
pub(crate) fn home_dir() -> (dir: Option<Vec<u8>>) {
    dirs::home_dir().map(|d| d.into_os_string().into_encoded_bytes())
}

/// The user's directory for configuration, through `dirs::config_dir`, as the
/// bytes of the path. It depends on the environment, and nothing is stated of
/// it.
#[verifier::external_body]
pub(crate) fn config_dir() -> (dir: Option<Vec<u8>>) {
    dirs::config_dir().map(|d| d.into_os_string().into_encoded_bytes())
}

/// The user's directory for data, through `dirs::data_dir`, as the bytes of the
/// path. It depends on the environment, and nothing is stated of it.
#[verifier::external_body]
pub(crate) fn data_dir() -> (dir: Option<Vec<u8>>) {
    dirs::data_dir().map(|d| d.into_os_string().into_encoded_bytes())
}

/// A path, taken as text, with the user's home spelled out, wherever that is.
pub fn expand_home_path(path: &Vec<u8>) -> (whole: Vec<u8>)
    ensures
        exists|home: Option<Seq<u8>>| whole@ == #[trigger] expanded_path(path@, home),
        !is_home_path(path_text(path@)) ==> whole@ == encode_utf8(path_text(path@)),
{
    let home = home_dir();
    let whole = expand_home_path_in(path, &home);
    assert(whole@ == expanded_path(path@, path_in(home)));
    whole
}

/// The path of the state database under the user's directory for data.
pub open spec fn database_path_in(data: Option<Seq<u8>>) -> Seq<u8> {
    match data {
        Some(dir) => joined(
            joined(dir, encode_utf8("compactd"@)),
            encode_utf8("state.db"@),
        ),
        None => encode_utf8("compactd.db"@),
    }
}

/// The path of the state database under a directory for data.
pub fn default_database_path(data: &Option<Vec<u8>>) -> (path: Vec<u8>)
    ensures
        path@ == database_path_in(path_in(*data)),
{
    match data {
        Some(dir) => join_path(&join_path(dir, &bytes_of("compactd")), &bytes_of("state.db")),
        None => bytes_of("compactd.db"),
    }
}

/// The path of the configuration file under the user's directory for
/// configuration.
pub open spec fn config_path_in(config: Option<Seq<u8>>) -> Seq<u8> {
    match config {
        Some(dir) => joined(
            joined(dir, encode_utf8("compactd"@)),
            encode_utf8("config.toml"@),
        ),
        None => encode_utf8("compactd.toml"@),
    }
}

/// The path of the configuration file under a directory for configuration.
pub fn default_config_path(config: &Option<Vec<u8>>) -> (path: Vec<u8>)
    ensures
        path@ == config_path_in(path_in(*config)),
{
    match config {
        Some(dir) => join_path(&join_path(dir, &bytes_of("compactd")), &bytes_of("config.toml")),
        None => bytes_of("compactd.toml"),
    }
}

proof fn lemma_first_byte(text: Seq<char>)
    requires
        text.len() > 0,
    ensures
        encode_utf8(text).len() > 0,
        text[0] == '~' ==> encode_utf8(text)[0] == 126,
{
    let first = text[0] as u32;
    if text[0] == '~' {
        assert(vstd::utf8::leading_byte_width_1(126u32) == 126u8) by (bit_vector);
    }
}

/// Spelling the home out a second time changes nothing, if the home is an
/// absolute path and the path is text.
pub proof fn law_expand_home_idempotent(path: Seq<u8>, home: Seq<u8>)
    requires
        home.len() > 0,
        home[0] == SLASH,
        valid_utf8(expanded_path(path, Some(home))),
    ensures
        expanded_path(expanded_path(path, Some(home)), Some(home)) == expanded_path(
            path,
            Some(home),
        ),
{
    let once = expanded_path(path, Some(home));
    let text = path_text(path);
    decode_utf8_encode_utf8(once);
    if is_home_path(text) {
        assert(once[0] == SLASH);
        if is_home_path(decode_utf8(once)) {
            lemma_first_byte(decode_utf8(once));
        }
    } else {
        encode_utf8_valid_utf8(text);
        encode_utf8_decode_utf8(text);
    }
}

/// Without a known home, and for a path that does not begin in it, a path that
/// is text stays as it is.
pub proof fn law_expand_home_elsewhere(path: Seq<u8>, home: Option<Seq<u8>>)
    requires
        valid_utf8(path),
        home is None || !is_home_path(decode_utf8(path)),
    ensures
        expanded_path(path, home) == path,
{
    decode_utf8_encode_utf8(path);
}

/// A home that is no text is kept as it is.
pub proof fn law_home_kept(path: Seq<char>, home: Seq<u8>)
    requires
        is_home_path(path),
        path.len() == 2 || encode_utf8(path.skip(2))[0] != SLASH,
        home.len() > 0,
    ensures
        expanded(path, Some(home)).take(home.len() as int) == home,
{
    let rest = encode_utf8(path.skip(2));
    assert(joined(home, rest).take(home.len() as int) =~= home);
}

} // verus!
