//! Resources: the encrypted files of a vault and the names by which they
//! are known.

use crate::error::{Error, Fail};
use crate::recipients::{normal_form, normalize_recipients};
use crate::vault::CreateMode;
use crate::text::texts;
use vstd::prelude::*;
use vstd::string::*;

verus! {

/// What the name of an encrypted file ends with.
pub open spec fn suffix() -> Seq<char> {
    ".gpg"@
}

/// The name of a resource, given the path of its encrypted file: the path
/// without the suffix. A path that does not end with the suffix is left as
/// it is.
pub open spec fn logical_text(path: Seq<char>) -> Seq<char> {
    if path.len() >= suffix().len() && path.skip(path.len() - suffix().len()) == suffix() {
        path.take(path.len() - suffix().len())
    } else {
        path
    }
}

/// The path of the encrypted file of a resource: its name with the
/// suffix.
pub open spec fn physical_text(name: Seq<char>) -> Seq<char> {
    name + suffix()
}

/// The names of some encrypted files as resources.
pub open spec fn logical_texts(paths: Seq<Seq<char>>) -> Seq<Seq<char>> {
    paths.map_values(|path: Seq<char>| logical_text(path))
}

/// The name of the resource whose encrypted file is at `path`.
pub fn logical_name(path: &str) -> (r: String)
    ensures
        r@ == logical_text(path@),
{
    proof {
        reveal_strlit(".gpg");
    }
    let n = path.unicode_len();
    if n >= 4 {
        let ghost tail = path@.skip(n - 4);
        proof {
            assert(tail.len() == 4);
            assert(tail[0] == path@[n - 4]);
            assert(tail[1] == path@[n - 3]);
            assert(tail[2] == path@[n - 2]);
            assert(tail[3] == path@[n - 1]);
        }
        if path.get_char(n - 4) == '.' && path.get_char(n - 3) == 'g' && path.get_char(n - 2)
            == 'p' && path.get_char(n - 1) == 'g' {
            proof {
                assert(tail =~= suffix());
                assert(path@.take(n - 4) =~= path@.subrange(0, n - 4));
            }
            return path.substring_char(0, n - 4).to_owned();
        }
        proof {
            if tail == suffix() {
                assert(tail[0] == '.' && tail[1] == 'g' && tail[2] == 'p' && tail[3] == 'g');
            }
        }
    }
    path.to_owned()
}

/// The path of the encrypted file of the resource called `name`.
pub fn physical_name(name: &str) -> (r: String)
    ensures
        r@ == physical_text(name@),
{
    String::from_str(name).concat(".gpg")
}

/// The name of a resource is found again in the path of its encrypted
/// file.
pub proof fn lemma_logical_of_physical(name: Seq<char>)
    ensures
        logical_text(physical_text(name)) == name,
{
    let path = physical_text(name);
    assert(path.skip(path.len() - suffix().len()) =~= suffix());
    assert(path.take(path.len() - suffix().len()) =~= name);
}

/// The resources whose encrypted files are at `paths`, by name, in
/// ascending order, each once.
pub fn list_resources(paths: &Vec<String>) -> (r: Vec<String>)
    ensures
        texts(r@) == normal_form(logical_texts(texts(paths@))),
{
    let mut names: Vec<String> = Vec::new();
    let mut i: usize = 0;
    while i < paths.len()
        invariant
            i <= paths.len(),
            texts(names@) == logical_texts(texts(paths@.take(i as int))),
        decreases paths.len() - i,
    {
        let ghost before = names@;
        names.push(logical_name(paths[i].as_str()));
        proof {
            let head = paths@.take(i as int);
            assert(paths@.take(i + 1) =~= head.push(paths@[i as int]));
            assert(texts(head.push(paths@[i as int])) =~= texts(head).push(paths@[i as int]@));
            assert(logical_texts(texts(head).push(paths@[i as int]@)) =~= logical_texts(
                texts(head),
            ).push(logical_text(paths@[i as int]@)));
            assert(texts(names@) =~= texts(before).push(logical_text(paths@[i as int]@)));
        }
        i += 1;
    }
    proof {
        assert(paths@.take(paths.len() as int) =~= paths@);
    }
    normalize_recipients(&names)
}

/// Where the editing of a resource starts from.
#[derive(Clone, Copy, Debug, PartialEq, Eq, Structural)]
pub enum EditStart {
    /// From what the resource holds, decrypted.
    Existing,
    /// From nothing: the resource is made.
    Nothing,
}

/// Whether `r` reports that the vault holds no resource called `name`.
pub open spec fn is_not_found<T>(r: Result<T, Error>, name: Seq<char>) -> bool {
    r matches Err(e) && e.contexts@.len() == 0 && (e.root matches Fail::ResourceNotFound {
        name: n,
    } && n@ == name)
}

/// Whether the resource called `name` may be added, given whether the
/// vault holds one of that name: a resource is never written over by
/// adding.
pub fn may_add(exists: bool, name: &str) -> (r: Result<(), Error>)
    ensures
        !exists ==> r is Ok,
        exists ==> (r matches Err(e) && e.contexts@.len() == 0 && (
        e.root matches Fail::ResourceExists { name: n } && n@ == name@)),
{
    if exists {
        Err(Error::new(Fail::ResourceExists { name: name.to_owned() }))
    } else {
        Ok(())
    }
}

/// Where the editing of the resource called `name` starts from, given
/// whether the vault holds it: from what it holds or, where it is
/// missing and may be made, from nothing. A resource that is missing and
/// may not be made is reported as not found.
pub fn begin_edit(mode: CreateMode, exists: bool, name: &str) -> (r: Result<EditStart, Error>)
    ensures
        exists ==> r == Ok::<EditStart, Error>(EditStart::Existing),
        !exists && mode == CreateMode::Create ==> r == Ok::<EditStart, Error>(EditStart::Nothing),
        !exists && mode == CreateMode::NoCreate ==> is_not_found(r, name@),
{
    if exists {
        Ok(EditStart::Existing)
    } else {
        match mode {
            CreateMode::Create => Ok(EditStart::Nothing),
            CreateMode::NoCreate => Err(
                Error::new(Fail::ResourceNotFound { name: name.to_owned() }),
            ),
        }
    }
}

/// Whether what was edited is encrypted and kept, given how the editor
/// ended: only where it ended well. Where it did not, the resource stays
/// as it was.
pub fn end_edit(editor_succeeded: bool, editor: &str) -> (r: Result<(), Error>)
    ensures
        editor_succeeded ==> r is Ok,
        !editor_succeeded ==> (r matches Err(e) && e.contexts@.len() == 0 && (
        e.root matches Fail::EditorFailed { editor: ed } && ed@ == editor@)),
{
    if editor_succeeded {
        Ok(())
    } else {
        Err(Error::new(Fail::EditorFailed { editor: editor.to_owned() }))
    }
}

/// What the failure to remove the resource called `name` is reported as:
/// as not found where it was `missing`, and otherwise as the file system
/// described it.
pub fn removal_failure(name: &str, missing: bool, description: String) -> (e: Error)
    ensures
        e.contexts@.len() == 0,
        missing ==> (e.root matches Fail::ResourceNotFound { name: n } && n@ == name@),
        !missing ==> e.root == Fail::Io(description),
{
    if missing {
        Error::new(Fail::ResourceNotFound { name: name.to_owned() })
    } else {
        Error::new(Fail::Io(description))
    }
}

} // verus!
