//! The calls into other crates and into the parts of the standard library that
//! have no specification of their own, each with what is claimed of it.

use vstd::prelude::*;
use crate::text::pieces;
use sha2::{Digest, Sha256};

verus! {

/// `String::push` appends one character.
pub assume_specification[ String::push ](s: &mut String, c: char)
    ensures
        final(s)@ == old(s)@.push(c),
;

/// The SHA-256 digest of some bytes.
pub uninterp spec fn sha256(data: Seq<u8>) -> Seq<u8>;

/// `sha2::Sha256::digest`: the digest is a function of the bytes alone and is 32
/// bytes long.
#[verifier::external_body]
pub(crate) fn sha256_of(data: &[u8]) -> (r: Vec<u8>)
    ensures
        r@ == sha256(data@),
        r@.len() == 32,
{
    Sha256::digest(data).to_vec()
}

/// `getrandom::getrandom`: thirty-two bytes of the system's randomness, nothing
/// where the system has none to give. What the bytes are is left open.
#[verifier::external_body]
pub(crate) fn random_32() -> (r: Option<Vec<u8>>)
    ensures
        r matches Some(b) ==> b@.len() == 32,
{
    let mut b = [0u8; 32];
    getrandom::getrandom(&mut b).ok().map(|_| b.to_vec())
}

/// `std::time::SystemTime::elapsed` of the Unix epoch: whole seconds since then,
/// nothing where the clock stands before it. What it reads is left open.
#[verifier::external_body]
pub(crate) fn since_epoch() -> (r: Option<u64>) {
    std::time::UNIX_EPOCH.elapsed().ok().map(|d| d.as_secs())
}

/// The string that a JSON object holds under a key, nothing where the text is no
/// JSON object, has no such key, or holds no string there.
pub uninterp spec fn json_text(body: Seq<char>, key: Seq<char>) -> Option<Seq<char>>;

/// `serde_json::from_str` into a `serde_json::Value`, then `get` and `as_str`: a
/// function of the text and the key alone.
#[verifier::external_body]
pub(crate) fn json_string(body: &str, key: &str) -> (r: Option<String>)
    ensures
        crate::status::figures::opt_string(r) == json_text(body@, key@),
{
    let v: serde_json::Value = serde_json::from_str(body).ok()?;
    v.get(key).and_then(|s| s.as_str()).map(|s| s.to_string())
}

/// What JSON text in bytes holds at a JSON pointer: whether it is a string, and the string
/// itself or else the value as JSON writes it. Nothing where the bytes are no JSON or hold
/// nothing there.
pub uninterp spec fn json_at(data: Seq<u8>, pointer: Seq<char>) -> Option<(bool, Seq<char>)>;

/// A value that was found, and whether it is a string.
pub open spec fn value_view(v: Option<(bool, String)>) -> Option<(bool, Seq<char>)> {
    match v {
        Some((string, text)) => Some((string, text@)),
        None => None,
    }
}

/// `serde_json::from_slice` into a `serde_json::Value`, then `serde_json::Value::pointer`
/// and the value's text: a function of the bytes and the pointer alone.
#[verifier::external_body]
pub(crate) fn json_value(data: &[u8], pointer: &str) -> (r: Option<(bool, String)>)
    ensures
        value_view(r) == json_at(data@, pointer@),
{
    let v: serde_json::Value = serde_json::from_slice(data).ok()?;
    v.pointer(pointer).map(|x| match x {
        serde_json::Value::String(s) => (true, s.clone()),
        other => (false, other.to_string()),
    })
}

/// How many values the array at a JSON pointer holds. Nothing where the bytes are no JSON
/// or hold no array there.
pub uninterp spec fn json_count(data: Seq<u8>, pointer: Seq<char>) -> Option<nat>;

/// `serde_json::from_slice` into a `serde_json::Value`, then `serde_json::Value::pointer`
/// and `as_array`: a function of the bytes and the pointer alone.
#[verifier::external_body]
pub(crate) fn json_items(data: &[u8], pointer: &str) -> (r: Option<usize>)
    ensures
        (match r {
            Some(n) => Some(n as nat),
            None => None,
        }) == json_count(data@, pointer@),
{
    let v: serde_json::Value = serde_json::from_slice(data).ok()?;
    v.pointer(pointer).and_then(|x| x.as_array()).map(|a| a.len())
}

/// Whether a character is alphabetic or numeric in Unicode.
pub uninterp spec fn alphanumeric(c: char) -> bool;

/// `char::is_alphanumeric`: a function of the character alone; among the ASCII
/// characters exactly the letters and digits are.
#[verifier::external_body]
pub(crate) fn is_alphanumeric(c: char) -> (r: bool)
    ensures
        r == alphanumeric(c),
        (c as u32) < 128 ==> r == ('0' <= c <= '9' || 'A' <= c <= 'Z' || 'a' <= c <= 'z'),
{
    c.is_alphanumeric()
}

/// The Unicode lowercase of a text.
pub uninterp spec fn lowercase(s: Seq<char>) -> Seq<char>;

/// `str::to_lowercase`: a function of the text alone.
#[verifier::external_body]
pub(crate) fn to_lowercase(s: &str) -> (r: String)
    ensures
        r@ == lowercase(s@),
{
    s.to_lowercase()
}

/// A path in which only the slash separates, on every platform: there is no backslash,
/// no drive and no doubled slash in front.
pub open spec fn slash_only(s: Seq<char>) -> bool {
    &&& forall|i: int| 0 <= i < s.len() ==> #[trigger] s[i] != '\\'
    &&& s.len() >= 2 ==> s[1] != ':' && !(s[0] == '/' && s[1] == '/')
}

/// The pieces of a path that name something: an empty one does not, nor does a point,
/// but in front.
pub open spec fn naming(v: Seq<Seq<char>>) -> Seq<Seq<char>>
    decreases v.len(),
{
    if v.len() == 0 {
        Seq::empty()
    } else {
        let rest = naming(v.drop_last());
        if v.last().len() == 0 || (v.last() == seq!['.'] && v.len() > 1) { rest } else { rest.push(v.last()) }
    }
}

/// The components of a path in which only the slash separates.
pub open spec fn components(s: Seq<char>) -> Seq<Seq<char>> {
    naming(pieces(s, '/'))
}

/// Whether a path starts at the root.
pub open spec fn rooted(s: Seq<char>) -> bool {
    s.len() > 0 && s[0] == '/'
}

/// Two spellings of one path: both start at the root or neither does, and their
/// components are the same.
pub open spec fn same_place(a: Seq<char>, b: Seq<char>) -> bool {
    rooted(a) == rooted(b) && components(a) == components(b)
}

/// A file name with nothing around it: no separator, and neither of the two names that
/// stand for folders.
pub open spec fn plain_name(s: Seq<char>) -> bool {
    &&& s.len() > 0
    &&& forall|i: int| 0 <= i < s.len() ==> #[trigger] s[i] != '/' && s[i] != '\\'
    &&& s != seq!['.']
    &&& s != seq!['.', '.']
}

/// Where the last slash of a text stands, -1 where there is none.
pub open spec fn last_slash(s: Seq<char>) -> int
    decreases s.len(),
{
    if s.len() == 0 {
        -1
    } else if s.last() == '/' {
        s.len() - 1
    } else {
        last_slash(s.drop_last())
    }
}

/// What stands before the last slash: the root keeps its slash, and there is nothing
/// where there is no slash.
pub open spec fn folder_part(s: Seq<char>) -> Seq<char> {
    if last_slash(s) < 0 {
        Seq::empty()
    } else if last_slash(s) == 0 {
        s.take(1)
    } else {
        s.take(last_slash(s))
    }
}

/// What stands behind the last slash.
pub open spec fn name_part(s: Seq<char>) -> Seq<char> {
    s.skip(last_slash(s) + 1)
}

/// A folder that ends with a name and not with a slash or a point.
pub open spec fn ends_named(folder: Seq<char>) -> bool {
    name_part(folder).len() > 0 && name_part(folder) != seq!['.']
}

/// A path that every platform takes apart alike and spells alike: a plain name, by
/// itself, in the root, or behind a folder that ends with a name.
pub open spec fn plain_path(s: Seq<char>) -> bool {
    &&& slash_only(s)
    &&& plain_name(name_part(s))
    &&& last_slash(s) > 0 ==> ends_named(s.take(last_slash(s)))
}

proof fn lemma_no_slash(s: Seq<char>)
    requires
        forall|i: int| 0 <= i < s.len() ==> #[trigger] s[i] != '/',
    ensures
        last_slash(s) == -1,
    decreases s.len(),
{
    if s.len() > 0 {
        assert(s[s.len() - 1] != '/');
        assert forall|i: int| 0 <= i < s.drop_last().len() implies #[trigger] s.drop_last()[i] != '/' by {
            assert(s[i] != '/');
        }
        lemma_no_slash(s.drop_last());
    }
}

/// The last slash stands inside the text, and is one.
pub proof fn lemma_last_slash(s: Seq<char>)
    ensures
        -1 <= last_slash(s) < s.len(),
        last_slash(s) >= 0 ==> s[last_slash(s)] == '/',
    decreases s.len(),
{
    if s.len() > 0 && s.last() != '/' {
        lemma_last_slash(s.drop_last());
    }
}

/// A plain name without a drive is a plain path, and is its own last part.
pub proof fn law_a_plain_name_is_a_plain_path(s: Seq<char>)
    requires
        plain_name(s),
        s.len() >= 2 ==> s[1] != ':',
    ensures
        plain_path(s),
        name_part(s) == s,
        folder_part(s) == Seq::<char>::empty(),
{
    lemma_no_slash(s);
    assert(s.skip(0) =~= s);
    assert forall|i: int| 0 <= i < s.len() implies #[trigger] s[i] != '\\' by {
        assert(s[i] != '/' && s[i] != '\\');
    }
    if s.len() >= 2 {
        assert(s[0] != '/');
    }
}

proof fn lemma_last_piece(s: Seq<char>)
    ensures
        pieces(s, '/').len() >= 1,
        pieces(s, '/').last() == name_part(s),
        (pieces(s, '/').len() == 1) == (last_slash(s) < 0),
    decreases s.len(),
{
    if s.len() > 0 {
        let front = s.drop_last();
        lemma_last_piece(front);
        lemma_last_slash(front);
        if s.last() == '/' {
            assert(name_part(s) =~= Seq::<char>::empty());
        } else {
            assert(name_part(s) =~= name_part(front).push(s.last()));
        }
    } else {
        assert(name_part(s) =~= Seq::<char>::empty());
    }
}

/// The last component of a path that ends with a plain name is that name.
pub proof fn law_a_name_is_the_last_component(s: Seq<char>)
    requires
        plain_name(name_part(s)),
    ensures
        components(s).len() > 0,
        components(s).last() == name_part(s),
        last_name(s) == Some(name_part(s)),
        components(s) != seq![seq!['.']],
{
    lemma_last_piece(s);
    assert(seq![seq!['.']].last() == seq!['.']);
}

/// The name of the file at a path in which only the slash separates: its last
/// component, nothing where it has none or ends by going up.
pub open spec fn last_name(s: Seq<char>) -> Option<Seq<char>> {
    let c = components(s);
    if c.len() == 0 || c.last() == seq!['.', '.'] { None } else { Some(c.last()) }
}

/// What is known of the folder of the file at a path, whatever the platform: it is a
/// shorter beginning of the path. Where only the slash separates, it is the path without
/// its last component, and there is none where there is no component; the folder of a
/// plain path is also spelt as it stands there.
pub open spec fn parent_fits(path: Seq<char>, parent: Option<Seq<char>>) -> bool {
    &&& parent matches Some(p) ==> p.len() < path.len() && p == path.take(p.len() as int)
    &&& slash_only(path) ==> (parent is Some <==> components(path).len() > 0)
    &&& slash_only(path) ==> (parent matches Some(p) ==> rooted(p) == rooted(path) && components(p) == components(
        path,
    ).drop_last())
    &&& plain_path(path) ==> parent == Some(folder_part(path))
}

/// What is known of the name of the file at a path, whatever the platform: it is not
/// empty, and where only the slash separates it is the last component, unless the path
/// is a point.
pub open spec fn name_fits(path: Seq<char>, name: Option<Seq<char>>) -> bool {
    &&& name matches Some(n) ==> n.len() > 0
    &&& slash_only(path) && components(path) != seq![seq!['.']] ==> name == last_name(path)
}

/// `std::path::Path::parent`; see [`parent_fits`]. What counts as a component of a path
/// with backslashes or a drive is the platform's to say and is left open, and so is how
/// much of a doubled slash or a point before the last component the folder keeps.
#[verifier::external_body]
pub(crate) fn path_parent(path: &str) -> (r: Option<String>)
    ensures
        parent_fits(path@, crate::status::figures::opt_string(r)),
{
    std::path::Path::new(path).parent().map(|p| p.to_string_lossy().into_owned())
}

/// `std::path::Path::file_name`; see [`name_fits`]. What counts as a component of a path
/// with backslashes or a drive is the platform's to say and is left open.
#[verifier::external_body]
pub(crate) fn path_name(path: &str) -> (r: Option<String>)
    ensures
        name_fits(path@, crate::status::figures::opt_string(r)),
{
    std::path::Path::new(path).file_name().map(|n| n.to_string_lossy().into_owned())
}

/// Where a slash or a backslash last stands in a text, -1 where there is neither.
pub open spec fn last_bar(s: Seq<char>) -> int
    decreases s.len(),
{
    if s.len() == 0 {
        -1
    } else if s.last() == '/' || s.last() == '\\' {
        s.len() - 1
    } else {
        last_bar(s.drop_last())
    }
}

/// What stands behind the last slash or backslash.
pub open spec fn tail_part(s: Seq<char>) -> Seq<char> {
    s.skip(last_bar(s) + 1)
}

/// A path that ends with a plain name on every platform, without a drive before it.
pub open spec fn ends_plainly(s: Seq<char>) -> bool {
    plain_name(tail_part(s)) && (tail_part(s).len() >= 2 ==> tail_part(s)[1] != ':')
}

/// Two paths that are one on every platform: spelt alike, or only the slash separates in
/// both and they name the same place.
pub open spec fn surely_same(a: Seq<char>, b: Seq<char>) -> bool {
    a == b || (slash_only(a) && slash_only(b) && same_place(a, b))
}

/// Two paths that are not one on any platform: only the slash separates in both and they
/// name other places, or both end with a plain name and the names differ.
pub open spec fn surely_other(a: Seq<char>, b: Seq<char>) -> bool {
    ||| slash_only(a) && slash_only(b) && !same_place(a, b)
    ||| ends_plainly(a) && ends_plainly(b) && tail_part(a) != tail_part(b)
}

proof fn lemma_bar_at_slash(s: Seq<char>)
    requires
        forall|i: int| 0 <= i < s.len() ==> #[trigger] s[i] != '\\',
    ensures
        last_bar(s) == last_slash(s),
    decreases s.len(),
{
    if s.len() > 0 {
        assert(s[s.len() - 1] != '\\');
        assert forall|i: int| 0 <= i < s.drop_last().len() implies #[trigger] s.drop_last()[i] != '\\' by {
            assert(s[i] != '\\');
        }
        lemma_bar_at_slash(s.drop_last());
    }
}

/// No two paths are surely the same and surely not.
pub proof fn law_same_paths_are_not_others(a: Seq<char>, b: Seq<char>)
    requires
        surely_same(a, b),
    ensures
        !surely_other(a, b),
{
    if a != b {
        lemma_bar_at_slash(a);
        lemma_bar_at_slash(b);
        if ends_plainly(a) && ends_plainly(b) {
            law_a_name_is_the_last_component(a);
            law_a_name_is_the_last_component(b);
        }
    }
}

/// Equality of `std::path::Path`, which compares the components: exact where only the
/// slash separates in both paths. Of others, two that are spelt alike are the same, and
/// two that end with other names are not; the rest is the platform's to say and is left
/// open.
#[verifier::external_body]
pub(crate) fn same_path(a: &str, b: &str) -> (r: bool)
    ensures
        surely_same(a@, b@) ==> r,
        surely_other(a@, b@) ==> !r,
{
    std::path::Path::new(a) == std::path::Path::new(b)
}

/// The Unicode uppercase of a text.
pub uninterp spec fn uppercase(s: Seq<char>) -> Seq<char>;

/// `str::to_uppercase`: a function of the text alone.
#[verifier::external_body]
pub(crate) fn to_uppercase(s: &str) -> (r: String)
    ensures
        r@ == uppercase(s@),
{
    s.to_uppercase()
}

/// Which modules of the code for a text are dark, row by row; nothing where the
/// text does not fit in a code.
pub uninterp spec fn qr_modules(text: Seq<char>) -> Option<Seq<Seq<bool>>>;

/// The rows of a code as they are.
pub open spec fn rows_of(v: Option<Vec<Vec<bool>>>) -> Option<Seq<Seq<bool>>> {
    match v {
        Some(rows) => Some(Seq::new(rows@.len(), |i: int| rows@[i]@)),
        None => None,
    }
}

/// `fast_qr::QRBuilder::build`, then the code's rows and `fast_qr::Module::value`
/// of each module: a function of the text alone. A code is a square of 21 to 177
/// modules.
#[verifier::external_body]
pub(crate) fn qr_rows(text: &str) -> (r: Option<Vec<Vec<bool>>>)
    ensures
        rows_of(r) == qr_modules(text@),
        r matches Some(rows) ==> {
            &&& 21 <= rows@.len() <= 177
            &&& forall|i: int| 0 <= i < rows@.len() ==> (#[trigger] rows@[i])@.len() == rows@.len()
        },
{
    let qr = fast_qr::QRBuilder::new(text).build().ok()?;
    Some((0..qr.size).map(|y| qr[y].iter().map(|m| m.value()).collect()).collect())
}

/// `std::path::MAIN_SEPARATOR`: the platform's separator, a slash or a backslash.
#[verifier::external_body]
pub(crate) fn separator() -> (r: char)
    ensures
        r == '/' || r == '\\',
{
    std::path::MAIN_SEPARATOR
}

} // verus!
