//! The media type of a file, guessed from the extension of its name.

use vstd::prelude::*;
use crate::text::{chars_of, slice_of, string_of};

verus! {

/// The last position of `c` in `s`, or -1 where `s` does not hold it.
pub open spec fn last_index_of(s: Seq<char>, c: char) -> int
    decreases s.len(),
{
    if s.len() == 0 {
        -1
    } else if s.last() == c {
        s.len() - 1
    } else {
        last_index_of(s.drop_last(), c)
    }
}

/// `last_index_of` is a position of `c` behind which `c` does not occur
/// again, or -1 where `c` does not occur at all.
pub proof fn lemma_last_index_of(s: Seq<char>, c: char)
    ensures
        -1 <= last_index_of(s, c) < s.len(),
        last_index_of(s, c) >= 0 ==> s[last_index_of(s, c)] == c,
        forall|k: int| last_index_of(s, c) < k < s.len() ==> #[trigger] s[k] != c,
    decreases s.len(),
{
    if s.len() > 0 && s.last() != c {
        let init = s.drop_last();
        lemma_last_index_of(init, c);
        assert forall|k: int| last_index_of(s, c) < k < s.len() implies #[trigger] s[k] != c by {
            if k < init.len() {
                assert(s[k] == init[k]);
            }
        }
    }
}

/// The name of the file that `path` leads to: what follows its last slash.
pub open spec fn file_name_of(path: Seq<char>) -> Seq<char> {
    path.skip(last_index_of(path, '/') + 1)
}

/// The extension of the file that `path` leads to: what follows the last
/// dot of its name. A name without a dot has none, nor has a name whose only
/// dot is its first character.
pub open spec fn extension_of(path: Seq<char>) -> Option<Seq<char>> {
    let name = file_name_of(path);
    let dot = last_index_of(name, '.');
    if dot <= 0 {
        None
    } else {
        Some(name.skip(dot + 1))
    }
}

/// An extension is the end of the path, and holds neither a dot nor a
/// slash.
pub proof fn lemma_extension_shape(path: Seq<char>)
    requires
        extension_of(path) is Some,
    ensures
        ({
            let extension = extension_of(path)->0;
            &&& extension.len() < path.len()
            &&& extension == path.skip(path.len() - extension.len())
            &&& path[path.len() - extension.len() - 1] == '.'
            &&& forall|k: int|
                0 <= k < extension.len() ==> #[trigger] extension[k] != '.' && extension[k] != '/'
        }),
{
    let slash = last_index_of(path, '/');
    let name = file_name_of(path);
    let dot = last_index_of(name, '.');
    let extension = name.skip(dot + 1);
    lemma_last_index_of(path, '/');
    lemma_last_index_of(name, '.');
    assert(extension =~= path.skip(path.len() - extension.len()));
    assert(name[dot] == path[slash + 1 + dot]);
    assert forall|k: int| 0 <= k < extension.len() implies #[trigger] extension[k] != '.'
        && extension[k] != '/' by {
        assert(extension[k] == name[dot + 1 + k]);
        assert(name[dot + 1 + k] == path[slash + 1 + dot + 1 + k]);
    }
}

/// The media type of files without an extension, and of files whose
/// extension is not known.
pub open spec fn octet_stream() -> Seq<char> {
    "application/octet-stream"@
}

/// The media type that is guessed for an extension.
pub uninterp spec fn extension_media_type(extension: Seq<char>) -> Seq<char>;

/// The media type of the file that `path` leads to.
pub open spec fn media_type_of(path: Seq<char>) -> Seq<char> {
    match extension_of(path) {
        Some(extension) => extension_media_type(extension),
        None => octet_stream(),
    }
}

/// Calls `mime_guess::from_ext(extension).first_or_octet_stream()` and
/// returns the text of the media type. The guess is a lookup of the
/// extension in a fixed table, whatever the case of its letters; the
/// contract gives the text that comes back the name
/// `extension_media_type(extension)` and claims no more of it.
#[verifier::external_body]
fn guess_by_extension(extension: &str) -> (media_type: String)
    ensures
        media_type@ == extension_media_type(extension@),
{
    mime_guess::from_ext(extension).first_or_octet_stream().as_ref().to_string()
}

/// The last position of `c` in `v`.
pub fn find_last(v: &Vec<char>, c: char) -> (at: Option<usize>)
    ensures
        at is Some ==> at->0 == last_index_of(v@, c) && at->0 < v.len(),
        at is None ==> last_index_of(v@, c) == -1,
{
    let mut i: usize = v.len();
    assert(v@.take(i as int) =~= v@);
    while i > 0
        invariant
            i <= v.len(),
            last_index_of(v@, c) == last_index_of(v@.take(i as int), c),
        decreases i,
    {
        if v[i - 1] == c {
            assert(v@.take(i as int).last() == c);
            return Some(i - 1);
        }
        assert(v@.take(i as int).drop_last() =~= v@.take(i - 1));
        i -= 1;
    }
    None
}

/// The extension of the file that `path` leads to.
pub fn extension(path: &Vec<char>) -> (ext: Option<Vec<char>>)
    ensures
        ext is Some ==> extension_of(path@) == Some(ext->0@),
        ext is None ==> extension_of(path@) is None,
{
    let start: usize = match find_last(path, '/') {
        Some(slash) => slash + 1,
        None => 0,
    };
    let name = slice_of(path, start, path.len());
    assert(name@ =~= file_name_of(path@));
    match find_last(&name, '.') {
        None => None,
        Some(dot) => {
            if dot == 0 {
                None
            } else {
                let ext = slice_of(&name, dot + 1, name.len());
                assert(ext@ =~= name@.skip(dot + 1));
                Some(ext)
            }
        },
    }
}

/// The media type of the file that `path` leads to.
pub fn media_type(path: &str) -> (media_type: String)
    ensures
        media_type@ == media_type_of(path@),
{
    match extension(&chars_of(path)) {
        Some(ext) => guess_by_extension(string_of(&ext).as_str()),
        None => "application/octet-stream".to_owned(),
    }
}

} // verus!
