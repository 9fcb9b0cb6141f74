//! Where a tool puts its result: beside the source, under a name that tells the
//! two apart.

use vstd::prelude::*;
use crate::ascii::{ascii_lowercase, fold};
use crate::outside::{folder_part, name_fits, name_part, parent_fits, path_name, path_parent, plain_path, separator};
use crate::status::figures::opt_string;
use crate::text::{chars_of, slice_of};

verus! {

/// Where `c` stands last in `s`, -1 where it stands nowhere.
pub open spec fn last_place(s: Seq<char>, c: char) -> int
    decreases s.len(),
{
    if s.len() == 0 {
        -1
    } else if s.last() == c {
        s.len() - 1
    } else {
        last_place(s.drop_last(), c)
    }
}

/// The number of characters up to the last `c`, nothing where it stands nowhere
/// or first.
fn dot_of(v: &Vec<char>) -> (r: Option<usize>)
    ensures
        r is Some <==> last_place(v@, '.') > 0,
        r matches Some(k) ==> k == last_place(v@, '.') && 0 < k < v@.len(),
{
    let mut n: usize = v.len();
    assert(v@.take(n as int) =~= v@);
    while n > 0 && v[n - 1] != '.'
        invariant
            n <= v@.len(),
            last_place(v@, '.') == last_place(v@.take(n as int), '.'),
        decreases n,
    {
        assert(v@.take(n as int).drop_last() =~= v@.take(n - 1));
        n = n - 1;
    }
    if n > 1 {
        Some(n - 1)
    } else {
        None
    }
}

/// A file name without its extension: what stands before the last dot, the whole
/// name where there is no dot behind the first character.
pub open spec fn stem(name: Seq<char>) -> Seq<char> {
    if last_place(name, '.') > 0 { name.take(last_place(name, '.')) } else { name }
}

/// The extension of a file name: what stands behind the last dot, nothing where
/// there is no dot behind the first character.
pub open spec fn extension(name: Seq<char>) -> Option<Seq<char>> {
    if last_place(name, '.') > 0 { Some(name.skip(last_place(name, '.') + 1)) } else { None }
}

/// See [`stem`].
pub fn file_stem(name: &str) -> (r: String)
    ensures
        r@ == stem(name@),
{
    let v = chars_of(name);
    match dot_of(&v) {
        Some(k) => {
            assert(v@.subrange(0, k as int) =~= v@.take(k as int));
            slice_of(&v, 0, k)
        },
        None => {
            assert(v@.subrange(0, v@.len() as int) =~= v@);
            slice_of(&v, 0, v.len())
        },
    }
}

/// See [`extension`].
pub fn file_extension(name: &str) -> (r: Option<String>)
    ensures
        opt_string(r) == extension(name@),
{
    let v = chars_of(name);
    let n: usize = v.len();
    match dot_of(&v) {
        Some(k) => {
            assert(v@.subrange(k + 1, n as int) =~= v@.skip(k + 1));
            Some(slice_of(&v, k + 1, n))
        },
        None => None,
    }
}

/// A drive and nothing else, where the backslash separates.
pub open spec fn bare_drive(folder: Seq<char>, sep: char) -> bool {
    &&& sep == '\\'
    &&& folder.len() == 2
    &&& folder[1] == ':'
    &&& 'A' <= folder[0] <= 'Z' || 'a' <= folder[0] <= 'z'
}

/// A file inside a folder: a name that starts at the root stands for itself, and
/// a folder that ends with a separator gets no second one, nor does a bare drive.
pub open spec fn inside(folder: Seq<char>, sep: char, name: Seq<char>) -> Seq<char> {
    if name.len() > 0 && name[0] == '/' {
        name
    } else if folder.len() == 0 || folder.last() == '/' || folder.last() == sep || bare_drive(folder, sep) {
        folder + name
    } else {
        folder.push(sep) + name
    }
}

/// See [`inside`].
pub fn join_path(folder: &str, sep: char, name: &str) -> (r: String)
    ensures
        r@ == inside(folder@, sep, name@),
{
    let v = chars_of(folder);
    let w = chars_of(name);
    if w.len() > 0 && w[0] == '/' {
        return name.to_owned();
    }
    let mut out = folder.to_owned();
    let drive = sep == '\\' && v.len() == 2 && v[1] == ':' && (('A' <= v[0] && v[0] <= 'Z') || ('a' <= v[0] && v[0]
        <= 'z'));
    if v.len() > 0 && v[v.len() - 1] != '/' && v[v.len() - 1] != sep && !drive {
        out.push(sep);
    }
    out.append(name);
    out
}

/// The lowercase extension of a file name, `out` where it has none.
pub open spec fn ext_text(name: Option<Seq<char>>) -> Seq<char> {
    match name {
        Some(n) => match extension(n) {
            Some(e) => fold(e),
            None => "out"@,
        },
        None => "out"@,
    }
}

/// See [`ext_text`].
pub fn ext_named(name: &Option<String>) -> (r: String)
    ensures
        r@ == ext_text(opt_string(*name)),
{
    match name {
        Some(n) => match file_extension(n.as_str()) {
            Some(e) => ascii_lowercase(e.as_str()),
            None => "out".to_owned(),
        },
        None => "out".to_owned(),
    }
}

/// The lowercase extension of a path, `out` where it has none.
pub fn ext_of(path: &str) -> (r: String)
    ensures
        exists|name: Option<Seq<char>>| r@ == #[trigger] ext_text(name) && name_fits(path@, name),
{
    let name = path_name(path);
    let r = ext_named(&name);
    assert(r@ == ext_text(opt_string(name)));
    r
}

/// The name of a result: stem, suffix and extension with dots between; an empty
/// suffix leaves no dot.
pub open spec fn result_name(stem: Seq<char>, suffix: Seq<char>, ext: Seq<char>) -> Seq<char> {
    if suffix.len() == 0 {
        stem + "."@ + ext
    } else {
        stem + "."@ + suffix + "."@ + ext
    }
}

/// The result of a source whose folder is `parent` and whose file name is `name`.
pub open spec fn beside_text(
    parent: Option<Seq<char>>,
    name: Option<Seq<char>>,
    sep: char,
    suffix: Seq<char>,
    ext: Seq<char>,
) -> Seq<char> {
    inside(
        match parent {
            Some(p) => p,
            None => Seq::empty(),
        },
        sep,
        result_name(
            match name {
                Some(n) => stem(n),
                None => "output"@,
            },
            suffix,
            ext,
        ),
    )
}

/// See [`beside_text`].
pub fn beside(parent: &Option<String>, name: &Option<String>, sep: char, suffix: &str, ext: &str) -> (r: String)
    ensures
        r@ == beside_text(opt_string(*parent), opt_string(*name), sep, suffix@, ext@),
{
    let mut file = match name {
        Some(n) => file_stem(n.as_str()),
        None => "output".to_owned(),
    };
    file.append(".");
    if !suffix.is_empty() {
        file.append(suffix);
        file.append(".");
    }
    file.append(ext);
    match parent {
        Some(p) => join_path(p.as_str(), sep, file.as_str()),
        None => {
            let none = String::new();
            assert(none@ =~= Seq::<char>::empty());
            join_path(none.as_str(), sep, file.as_str())
        },
    }
}

/// `dir/stem.suffix.ext` next to `input`; `dir/stem.ext` for an empty suffix.
pub fn beside_source(input: &str, suffix: &str, ext: &str) -> (r: String)
    ensures
        exists|parent: Option<Seq<char>>, name: Option<Seq<char>>, sep: char| {
            &&& r@ == #[trigger] beside_text(parent, name, sep, suffix@, ext@)
            &&& parent_fits(input@, parent)
            &&& name_fits(input@, name)
            &&& sep == '/' || sep == '\\'
        },
{
    let parent = path_parent(input);
    let name = path_name(input);
    let sep = separator();
    let r = beside(&parent, &name, sep, suffix, ext);
    assert(r@ == beside_text(opt_string(parent), opt_string(name), sep, suffix@, ext@));
    r
}

proof fn lemma_last_place(s: Seq<char>, c: char)
    ensures
        -1 <= last_place(s, c) < s.len(),
        last_place(s, c) >= 0 ==> s[last_place(s, c)] == c,
        forall|i: int| last_place(s, c) < i < s.len() ==> #[trigger] s[i] != c,
    decreases s.len(),
{
    if s.len() > 0 && s.last() != c {
        lemma_last_place(s.drop_last(), c);
        assert forall|i: int| last_place(s, c) < i < s.len() implies #[trigger] s[i] != c by {
            if i < s.len() - 1 {
                assert(s.drop_last()[i] == s[i]);
            }
        }
    }
}

proof fn lemma_last_place_at(s: Seq<char>, c: char, k: int)
    requires
        0 <= k < s.len(),
        s[k] == c,
        forall|i: int| k < i < s.len() ==> #[trigger] s[i] != c,
    ensures
        last_place(s, c) == k,
    decreases s.len(),
{
    if k < s.len() - 1 {
        assert(s[s.len() - 1] != c);
        assert forall|i: int| k < i < s.drop_last().len() implies #[trigger] s.drop_last()[i] != c by {
            assert(s[i] != c);
        }
        lemma_last_place_at(s.drop_last(), c, k);
    }
}

/// The result of a plain path lies in the folder of its source: a slash for a
/// separator, its path is the source's with the stem's name in place of the own.
pub proof fn law_a_result_lies_beside_its_source(
    path: Seq<char>,
    parent: Option<Seq<char>>,
    name: Option<Seq<char>>,
    suffix: Seq<char>,
    ext: Seq<char>,
)
    requires
        plain_path(path),
        parent_fits(path, parent),
        name_fits(path, name),
    ensures
        beside_text(parent, name, '/', suffix, ext) == path.take(path.len() - name_part(path).len()) + result_name(
            stem(name_part(path)),
            suffix,
            ext,
        ),
{
    let d = folder_part(path);
    let n = name_part(path);
    let file = result_name(stem(n), suffix, ext);
    lemma_last_place(n, '.');
    crate::outside::lemma_last_slash(path);
    assert(stem(n)[0] == n[0]);
    assert(file[0] == n[0]);
    crate::outside::law_a_name_is_the_last_component(path);
    if crate::outside::last_slash(path) > 0 {
        assert(name_part(d).len() > 0);
        assert(d.last() != '/');
        assert(d.push('/') =~= path.take(path.len() - n.len()));
    } else if crate::outside::last_slash(path) == 0 {
        assert(d.last() == '/');
    } else {
        assert(path.take(0) =~= d);
        assert(d + file =~= path.take(path.len() - n.len()) + file);
    }
}

/// A file name comes apart into stem and extension and goes together again.
pub proof fn law_stem_and_extension(name: Seq<char>)
    ensures
        match extension(name) {
            Some(e) => name == stem(name) + "."@ + e,
            None => name == stem(name),
        },
{
    lemma_last_place(name, '.');
    reveal_strlit(".");
    if last_place(name, '.') > 0 {
        assert(name =~= stem(name) + "."@ + name.skip(last_place(name, '.') + 1));
    }
}

/// The name of a result has the stem of the source in front and the extension
/// that was asked for, where that holds no dot.
pub proof fn law_result_extension(stem: Seq<char>, suffix: Seq<char>, ext: Seq<char>)
    requires
        stem.len() > 0,
        forall|i: int| 0 <= i < ext.len() ==> #[trigger] ext[i] != '.',
    ensures
        extension(result_name(stem, suffix, ext)) == Some(ext),
        result_name(stem, suffix, ext).take(stem.len() as int) == stem,
{
    reveal_strlit(".");
    let r = result_name(stem, suffix, ext);
    let k = r.len() - ext.len() - 1;
    assert(r[k] == '.');
    assert forall|i: int| k < i < r.len() implies #[trigger] r[i] != '.' by {
        assert(r[i] == ext[i - k - 1]);
    }
    lemma_last_place_at(r, '.', k);
    assert(r.skip(k + 1) =~= ext);
    assert(r.take(stem.len() as int) =~= stem);
}

} // verus!
