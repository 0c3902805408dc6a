//! Names of directory entries: where a file name divides into stem and
//! extension, and which extensions name a data file.

use vstd::prelude::*;
use vstd::string::*;

verus! {

/// How the contents of a data file are taken into the context.
#[derive(Clone, Copy, Debug, PartialEq, Eq, Structural)]
pub enum Format {
    /// The file holds JSON text and is parsed.
    Json,
    /// The file holds plain text and is taken as it is.
    Text,
}

/// The name `..`, which has a stem and no extension.
pub open spec fn parent_name() -> Seq<char> {
    seq!['.', '.']
}

/// The extension `json`.
pub open spec fn json_extension() -> Seq<char> {
    seq!['j', 's', 'o', 'n']
}

/// The extension `txt`.
pub open spec fn text_extension() -> Seq<char> {
    seq!['t', 'x', 't']
}

/// `i` is the place of the dot that divides `name` into stem and extension:
/// the last dot of the name, and not its first character.
pub open spec fn divides_at(name: Seq<char>, i: int) -> bool {
    &&& 0 < i < name.len()
    &&& name[i] == '.'
    &&& forall|j: int| i < j < name.len() ==> name[j] != '.'
}

/// Whether `name` has an extension: a dot divides it, and it is not `..`.
pub open spec fn has_extension(name: Seq<char>) -> bool {
    name != parent_name() && exists|i: int| divides_at(name, i)
}

/// The place of the dividing dot of a name that has an extension.
pub open spec fn dividing_dot(name: Seq<char>) -> int {
    choose|i: int| divides_at(name, i)
}

/// The stem of `name`: what stands before the dividing dot, or the whole
/// name where it has no extension.
pub open spec fn stem_of(name: Seq<char>) -> Seq<char> {
    if has_extension(name) {
        name.subrange(0, dividing_dot(name))
    } else {
        name
    }
}

/// The extension of `name`: what stands behind the dividing dot, if there is one.
pub open spec fn extension_of(name: Seq<char>) -> Option<Seq<char>> {
    if has_extension(name) {
        Some(name.subrange(dividing_dot(name) + 1, name.len() as int))
    } else {
        None
    }
}

/// The format that the extension of `name` asks for, if it is one of the two
/// that are loaded. Extensions are compared letter for letter.
pub open spec fn format_of(name: Seq<char>) -> Option<Format> {
    if extension_of(name) == Some(json_extension()) {
        Some(Format::Json)
    } else if extension_of(name) == Some(text_extension()) {
        Some(Format::Text)
    } else {
        None
    }
}

/// The key and the format under which the file `name` enters the context;
/// `None` for a file that is passed over.
pub open spec fn data_key_of(name: Seq<char>) -> Option<(Seq<char>, Format)> {
    match format_of(name) {
        Some(format) => Some((stem_of(name), format)),
        None => None,
    }
}

/// A name has at most one dividing dot.
pub proof fn lemma_divides_at_unique(name: Seq<char>, i: int, j: int)
    requires
        divides_at(name, i),
        divides_at(name, j),
    ensures
        i == j,
{
    if i < j {
        assert(name[j] != '.');
    } else if j < i {
        assert(name[i] != '.');
    }
}

/// Finds the dot that divides `name` into stem and extension.
pub fn find_dividing_dot(name: &str) -> (found: Option<usize>)
    ensures
        found is Some <==> has_extension(name@),
        found matches Some(i) ==> i as int == dividing_dot(name@),
{
    let len: usize = name.unicode_len();
    let mut last: Option<usize> = None;
    let mut i: usize = 0;
    for c in letters: name.chars()
        invariant
            len == name@.len(),
            letters.seq() == name@,
            i == letters.index(),
            last matches Some(d) ==> d < i && name@[d as int] == '.' && forall|j: int|
                d < j < i ==> name@[j] != '.',
            last is None ==> forall|j: int| 0 <= j < i ==> name@[j] != '.',
    {
        if c == '.' {
            last = Some(i);
        }
        i += 1;
    }
    match last {
        Some(d) => {
            if d == 0 || (len == 2 && d == 1 && name.get_char(0) == '.') {
                proof {
                    if d == 0 {
                        assert forall|k: int| !divides_at(name@, k) by {
                            if divides_at(name@, k) {
                                assert(name@[k] != '.');
                            }
                        }
                    } else {
                        assert(name@ =~= parent_name());
                    }
                }
                None
            } else {
                proof {
                    assert(divides_at(name@, d as int));
                    if name@ == parent_name() {
                        assert(name@.len() == 2);
                        assert(name@[0] == '.');
                    }
                    lemma_divides_at_unique(name@, d as int, dividing_dot(name@));
                }
                Some(d)
            }
        },
        None => {
            proof {
                assert forall|k: int| !divides_at(name@, k) by {}
            }
            None
        },
    }
}

/// The stem of a file name, as a string of its own.
pub fn file_stem(name: &str) -> (stem: String)
    ensures
        stem@ == stem_of(name@),
{
    match find_dividing_dot(name) {
        Some(d) => String::from_str(name.substring_char(0, d)),
        None => String::from_str(name),
    }
}

/// The extension of a file name, if it has one.
pub fn extension(name: &str) -> (ext: Option<String>)
    ensures
        ext is Some <==> extension_of(name@) is Some,
        ext matches Some(e) ==> Some(e@) == extension_of(name@),
{
    match find_dividing_dot(name) {
        Some(d) => {
            let len: usize = name.unicode_len();
            Some(String::from_str(name.substring_char(d + 1, len)))
        },
        None => None,
    }
}

/// Whether `text` is exactly the three letters `txt`.
fn is_text_extension(text: &str) -> (yes: bool)
    ensures
        yes == (text@ == text_extension()),
{
    let yes = text.unicode_len() == 3 && text.get_char(0) == 't' && text.get_char(1) == 'x'
        && text.get_char(2) == 't';
    proof {
        if yes {
            assert(text@ =~= text_extension());
        }
    }
    yes
}

/// Whether `text` is exactly the four letters `json`.
fn is_json_extension(text: &str) -> (yes: bool)
    ensures
        yes == (text@ == json_extension()),
{
    let yes = text.unicode_len() == 4 && text.get_char(0) == 'j' && text.get_char(1) == 's'
        && text.get_char(2) == 'o' && text.get_char(3) == 'n';
    proof {
        if yes {
            assert(text@ =~= json_extension());
        }
    }
    yes
}

/// Decides under which key and in which format the file `name` enters the
/// context. Only `.json` and `.txt` files do; every other file is passed over.
pub fn data_key(name: &str) -> (key: Option<(String, Format)>)
    ensures
        key is Some <==> data_key_of(name@) is Some,
        key matches Some((stem, format)) ==> data_key_of(name@) == Some((stem@, format)),
{
    match extension(name) {
        Some(ext) => {
            if is_json_extension(ext.as_str()) {
                Some((file_stem(name), Format::Json))
            } else if is_text_extension(ext.as_str()) {
                Some((file_stem(name), Format::Text))
            } else {
                None
            }
        },
        None => None,
    }
}

} // verus!
