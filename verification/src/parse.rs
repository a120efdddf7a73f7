//! From the arguments of the command line, once they are told apart, to
//! the command that they stand for.

use crate::command::{ExtractionContext, Shell, VaultCommand, VaultContext, VaultSpec};
use crate::error::{Error, Fail};
use crate::paths::{file_name_of, path_file_name};
use crate::text::{join3, texts};
use crate::vault::{CreateMode, SigningMode};
use vstd::prelude::*;
use vstd::string::*;

verus! {

/// Whether `r` is `value` where there is one, and otherwise the failure
/// that says that the argument `name` is missing.
pub open spec fn is_required(value: Option<&str>, name: Seq<char>, r: Result<String, Error>) -> bool {
    match value {
        Some(text) => (r matches Ok(t) && t@ == text@),
        None => is_missing(r, name),
    }
}

/// Whether `r` is the failure that says that the argument `name` is
/// missing.
pub open spec fn is_missing<T>(r: Result<T, Error>, name: Seq<char>) -> bool {
    r matches Err(e) && e.contexts@.len() == 0 && (e.root matches Fail::MissingArgument {
        name: n,
    } && n@ == name)
}

/// The path that was given for the argument `name`, which must have been
/// given.
pub fn required_os_arg(value: Option<&str>, name: &str) -> (r: Result<String, Error>)
    ensures
        is_required(value, name@, r),
{
    match value {
        Some(text) => Ok(text.to_owned()),
        None => Err(Error::new(Fail::MissingArgument { name: name.to_owned() })),
    }
}

/// The text that was given for the argument `name`, which must have been
/// given.
pub fn required_arg(value: Option<&str>, name: &str) -> (r: Result<String, Error>)
    ensures
        is_required(value, name@, r),
{
    match value {
        Some(text) => Ok(text.to_owned()),
        None => Err(Error::new(Fail::MissingArgument { name: name.to_owned() })),
    }
}

/// The vault that a command is about: its configuration file and its
/// selector, with the command to list it until another is put in.
pub fn vault_context_from(config_file: Option<&str>, vault_id: Option<&str>) -> (r: Result<
    VaultContext,
    Error,
>)
    ensures
        match (config_file, vault_id) {
            (Some(file), Some(id)) => (r matches Ok(ctx) && ctx.vault_path@ == file@
                && ctx.vault_id@ == id@ && ctx.command == VaultCommand::List),
            (None, _) => is_missing(r, "config-file"@),
            (Some(_), None) => is_missing(r, "vault-id"@),
        },
{
    let vault_path = match required_os_arg(config_file, "config-file") {
        Ok(path) => path,
        Err(e) => {
            return Err(e);
        },
    };
    let vault_id = match required_arg(vault_id, "vault-id") {
        Ok(id) => id,
        Err(e) => {
            return Err(e);
        },
    };
    Ok(VaultContext { vault_path, vault_id, command: VaultCommand::List })
}

/// The command to add recipients, for the vault of `ctx`.
pub fn vault_recipients_add(
    ctx: VaultContext,
    gpg_key_ids: Vec<String>,
    sign: SigningMode,
    signing_key_id: Option<String>,
) -> (r: Result<VaultContext, Error>)
    ensures
        r == Ok::<VaultContext, Error>(
            VaultContext {
                vault_path: ctx.vault_path,
                vault_id: ctx.vault_id,
                command: VaultCommand::RecipientsAdd { gpg_key_ids, sign, signing_key_id },
            },
        ),
{
    Ok(
        VaultContext {
            vault_path: ctx.vault_path,
            vault_id: ctx.vault_id,
            command: VaultCommand::RecipientsAdd { gpg_key_ids, sign, signing_key_id },
        },
    )
}

/// The command to show the resource at `path`, for the vault of `ctx`.
pub fn vault_resource_show(ctx: VaultContext, path: Option<&str>) -> (r: Result<
    VaultContext,
    Error,
>)
    ensures
        match path {
            Some(p) => (r matches Ok(c) && c.vault_path == ctx.vault_path && c.vault_id
                == ctx.vault_id && (c.command matches VaultCommand::ResourceShow { spec } && spec@
                == p@)),
            None => is_missing(r, "path"@),
        },
{
    let spec = match required_os_arg(path, "path") {
        Ok(spec) => spec,
        Err(e) => {
            return Err(e);
        },
    };
    Ok(
        VaultContext {
            vault_path: ctx.vault_path,
            vault_id: ctx.vault_id,
            command: VaultCommand::ResourceShow { spec },
        },
    )
}

/// The command to edit the resource at `path` with `editor`, for the
/// vault of `ctx`. A resource that does not exist is made, unless
/// `no_create` says otherwise.
pub fn vault_resource_edit(
    ctx: VaultContext,
    path: Option<&str>,
    editor: Option<&str>,
    no_create: bool,
) -> (r: Result<VaultContext, Error>)
    ensures
        match (path, editor) {
            (Some(p), Some(ed)) => (r matches Ok(c) && c.vault_path == ctx.vault_path
                && c.vault_id == ctx.vault_id && (c.command matches VaultCommand::ResourceEdit {
                spec,
                editor: e,
                mode,
            } && spec@ == p@ && e@ == ed@ && mode == (if no_create {
                CreateMode::NoCreate
            } else {
                CreateMode::Create
            }))),
            (None, _) => is_missing(r, "path"@),
            (Some(_), None) => is_missing(r, "editor"@),
        },
{
    let spec = match required_os_arg(path, "path") {
        Ok(spec) => spec,
        Err(e) => {
            return Err(e);
        },
    };
    let editor = match required_os_arg(editor, "editor") {
        Ok(editor) => editor,
        Err(e) => {
            return Err(e);
        },
    };
    let mode = if no_create {
        CreateMode::NoCreate
    } else {
        CreateMode::Create
    };
    Ok(
        VaultContext {
            vault_path: ctx.vault_path,
            vault_id: ctx.vault_id,
            command: VaultCommand::ResourceEdit { spec, editor, mode },
        },
    )
}

/// The command to make a vault with the recipients called `gpg_key_ids`,
/// for the configuration file of `ctx`.
pub fn vault_init_from(
    ctx: VaultContext,
    recipients_file: Option<&str>,
    gpg_keys_dir: Option<&str>,
    gpg_key_ids: Option<Vec<String>>,
) -> (r: Result<VaultContext, Error>)
    ensures
        match (recipients_file, gpg_keys_dir) {
            (Some(file), Some(dir)) => (r matches Ok(c) && c.vault_path == ctx.vault_path
                && c.vault_id == ctx.vault_id && (c.command matches VaultCommand::Init {
                recipients_file: f,
                gpg_keys_dir: d,
                gpg_key_ids: ids,
            } && f@ == file@ && d@ == dir@ && match gpg_key_ids {
                Some(given) => ids == given,
                None => ids@.len() == 0,
            })),
            (None, _) => is_missing(r, "recipients-file-path"@),
            (Some(_), None) => is_missing(r, "gpg-keys-dir"@),
        },
{
    let recipients_file = match required_os_arg(recipients_file, "recipients-file-path") {
        Ok(file) => file,
        Err(e) => {
            return Err(e);
        },
    };
    let gpg_keys_dir = match required_os_arg(gpg_keys_dir, "gpg-keys-dir") {
        Ok(dir) => dir,
        Err(e) => {
            return Err(e);
        },
    };
    let gpg_key_ids = match gpg_key_ids {
        Some(ids) => ids,
        None => Vec::new(),
    };
    Ok(
        VaultContext {
            vault_path: ctx.vault_path,
            vault_id: ctx.vault_id,
            command: VaultCommand::Init { recipients_file, gpg_keys_dir, gpg_key_ids },
        },
    )
}

/// What to take data from: the file that was given.
pub fn extraction_context_from(file: Option<&str>) -> (r: Result<ExtractionContext, Error>)
    ensures
        match file {
            Some(f) => (r matches Ok(c) && c.file_path@ == f@),
            None => is_missing(r, "file"@),
        },
{
    match required_os_arg(file, "file") {
        Ok(file_path) => Ok(ExtractionContext { file_path }),
        Err(e) => Err(e),
    }
}

/// A letter of the Latin alphabet as a small letter; any other character
/// as it is.
pub open spec fn folded(c: char) -> char {
    if 'A' <= c <= 'Z' {
        ((c as u8) + 32u8) as char
    } else {
        c
    }
}

/// Whether two texts are the same but for the case of their Latin
/// letters.
pub open spec fn same_ignoring_case(a: Seq<char>, b: Seq<char>) -> bool {
    a.len() == b.len() && forall|i: int| 0 <= i < a.len() ==> folded(a[i]) == folded(b[i])
}

/// The shell that goes by a name, whatever the case of its letters.
pub open spec fn shell_named(name: Seq<char>) -> Option<Shell> {
    if same_ignoring_case(name, "zsh"@) {
        Some(Shell::Zsh)
    } else if same_ignoring_case(name, "fish"@) {
        Some(Shell::Fish)
    } else if same_ignoring_case(name, "bash"@) {
        Some(Shell::Bash)
    } else if same_ignoring_case(name, "powershell"@) {
        Some(Shell::PowerShell)
    } else if same_ignoring_case(name, "elvish"@) {
        Some(Shell::Elvish)
    } else {
        None
    }
}

/// What is said of a name that no shell goes by.
pub open spec fn valid_shells_text() -> Seq<char> {
    "[valid values: bash, fish, zsh, powershell, elvish]"@
}

/// `clap::Shell::from_str`. Claimed of it, as its source has it: a name
/// that is `zsh`, `fish`, `bash`, `powershell` or `elvish` but for the
/// case of its letters gives that shell, and any other name gives the
/// list of valid values as its error.
#[verifier::external_body]
fn shell_from_name(name: &str) -> (r: Result<Shell, String>)
    ensures
        match r {
            Ok(shell) => shell_named(name@) == Some(shell),
            Err(text) => shell_named(name@).is_none() && text@ == valid_shells_text(),
        },
{
    match <clap::Shell as std::str::FromStr>::from_str(name) {
        Ok(clap::Shell::Bash) => Ok(Shell::Bash),
        Ok(clap::Shell::Fish) => Ok(Shell::Fish),
        Ok(clap::Shell::Zsh) => Ok(Shell::Zsh),
        Ok(clap::Shell::PowerShell) => Ok(Shell::PowerShell),
        Ok(clap::Shell::Elvish) => Ok(Shell::Elvish),
        Err(text) => Err(text),
    }
}

/// The name by which a shell is asked for: the last part of what was
/// given, where that is a path, and otherwise all of it.
pub open spec fn shell_name(given: Seq<char>) -> Seq<char> {
    match path_file_name(given) {
        Some(name) => name,
        None => given,
    }
}

/// The shell that completions are to be made for. It may be given as the
/// path of its program.
pub fn generate_completions(shell: Option<&str>) -> (r: Result<Shell, Error>)
    ensures
        match shell {
            None => (r matches Err(e) && e.contexts@.len() == 0 && (e.root matches Fail::Message(
                m,
            ) && m@ == "expected 'shell' argument"@)),
            Some(given) => match shell_named(shell_name(given@)) {
                Some(named) => r == Ok::<Shell, Error>(named),
                None => (r matches Err(e) && texts(e.contexts@) == seq![
                    "The shell '"@ + shell_name(given@) + "' is unsupported"@,
                ] && (e.root matches Fail::Message(m) && m@ == valid_shells_text())),
            },
        },
{
    let given = match shell {
        Some(given) => given,
        None => {
            return Err(Error::new(Fail::Message(String::from_str("expected 'shell' argument"))));
        },
    };
    let name = match file_name_of(given) {
        Some(name) => name,
        None => given.to_owned(),
    };
    match shell_from_name(name.as_str()) {
        Ok(named) => Ok(named),
        Err(text) => {
            let remark = join3("The shell '", name.as_str(), "' is unsupported");
            let e = Error::new(Fail::Message(text)).context(remark);
            proof {
                assert(texts(e.contexts@) =~= seq![remark@]);
            }
            Err(e)
        },
    }
}

/// Where the first `:` stands in a text that holds one.
pub open spec fn first_colon(s: Seq<char>) -> int {
    choose|at: int| 0 <= at < s.len() && s[at] == ':' && forall|i: int| 0 <= i < at ==> s[i] != ':'
}

/// What a text says to add to a vault: the source and the destination.
/// The two are written with a `:` between them. Without a source the
/// standard input is meant, written here as `None`; without a
/// destination, or without the `:`, the resource is called as its
/// source. A text that is empty, holds two `:` or nothing but a `:` says
/// nothing.
pub open spec fn spec_of_text(s: Seq<char>) -> Option<(Option<Seq<char>>, Seq<char>)> {
    if s.len() == 0 {
        None
    } else if !s.contains(':') {
        Some((Some(s), s))
    } else {
        let src = s.take(first_colon(s));
        let dst = s.skip(first_colon(s) + 1);
        if dst.contains(':') {
            None
        } else if dst.len() > 0 {
            Some((if src.len() == 0 {
                None
            } else {
                Some(src)
            }, dst))
        } else if src.len() > 0 {
            Some((Some(src), src))
        } else {
            None
        }
    }
}

/// Whether `r` is what `text` says to add, or the failure that reports
/// that it says nothing.
pub open spec fn is_spec_of(r: Result<VaultSpec, Error>, text: Seq<char>) -> bool {
    match spec_of_text(text) {
        Some((src, dst)) => (r matches Ok(spec) && spec.dst@ == dst && match src {
            Some(path) => (spec.src matches Some(p) && p@ == path),
            None => spec.src.is_none(),
        }),
        None => (r matches Err(e) && e.contexts@.len() == 0 && (e.root matches Fail::InvalidSpec {
            spec,
        } && spec@ == text)),
    }
}

/// The place of the first `:` in `s` from `from` on, or the length of `s`
/// where there is none.
fn next_colon(s: &str, from: usize) -> (at: usize)
    requires
        from <= s@.len(),
    ensures
        from <= at <= s@.len(),
        forall|i: int| from <= i < at ==> s@[i] != ':',
        at < s@.len() ==> s@[at as int] == ':',
{
    let n = s.unicode_len();
    let mut at = from;
    while at < n
        invariant
            n == s@.len(),
            from <= at <= n,
            forall|i: int| from <= i < at ==> s@[i] != ':',
        decreases n - at,
    {
        if s.get_char(at) == ':' {
            return at;
        }
        at += 1;
    }
    at
}

impl VaultSpec {
    /// Reads what to add to a vault: see `spec_of_text`.
    pub fn parse(text: &str) -> (r: Result<VaultSpec, Error>)
        ensures
            is_spec_of(r, text@),
    {
        let n = text.unicode_len();
        if n == 0 {
            return Err(Error::new(Fail::InvalidSpec { spec: text.to_owned() }));
        }
        let at = next_colon(text, 0);
        if at == n {
            proof {
                if text@.contains(':') {
                    let i = choose|i: int| 0 <= i < text@.len() && text@[i] == ':';
                    assert(text@[i] != ':');
                }
            }
            return Ok(VaultSpec { src: Some(text.to_owned()), dst: text.to_owned() });
        }
        proof {
            assert(text@.contains(':'));
            let first = first_colon(text@);
            assert(0 <= first < text@.len() && text@[first] == ':' && forall|i: int|
                0 <= i < first ==> text@[i] != ':');
            assert(first == at);
        }
        let other = next_colon(text, at + 1);
        let ghost dst = text@.skip(at + 1);
        if other < n {
            proof {
                assert(dst[other - (at + 1)] == ':');
            }
            return Err(Error::new(Fail::InvalidSpec { spec: text.to_owned() }));
        }
        proof {
            if dst.contains(':') {
                let i = choose|i: int| 0 <= i < dst.len() && dst[i] == ':';
                assert(text@[i + at + 1] == ':');
            }
            assert(text@.take(at as int) =~= text@.subrange(0, at as int));
            assert(dst =~= text@.subrange(at + 1, n as int));
        }
        let src = text.substring_char(0, at);
        let dst = text.substring_char(at + 1, n);
        if at + 1 < n {
            Ok(
                VaultSpec {
                    src: if at == 0 {
                        None
                    } else {
                        Some(src.to_owned())
                    },
                    dst: dst.to_owned(),
                },
            )
        } else if at > 0 {
            Ok(VaultSpec { src: Some(src.to_owned()), dst: src.to_owned() })
        } else {
            Err(Error::new(Fail::InvalidSpec { spec: text.to_owned() }))
        }
    }
}

/// Whether `specs` are what the texts `given` say to add, one for one.
pub open spec fn are_specs_of(specs: Seq<VaultSpec>, given: Seq<String>) -> bool {
    specs.len() == given.len() && forall|i: int|
        0 <= i < given.len() ==> is_spec_of(Ok(#[trigger] specs[i]), given[i]@)
}

/// Whether `e` reports that the text at `at` says nothing, which is the
/// first of `given` to do so.
pub open spec fn reports_first_bad_spec(e: Error, given: Seq<String>, at: int) -> bool {
    &&& 0 <= at < given.len()
    &&& spec_of_text(given[at]@).is_none()
    &&& is_spec_of(Err(e), given[at]@)
    &&& forall|j: int| 0 <= j < at ==> spec_of_text(#[trigger] given[j]@).is_some()
}

/// The command to add to the vault of `ctx` what `specs` say; nothing
/// where none are given. The first of them that says nothing is reported
/// as a failure.
pub fn vault_resource_add_from(ctx: VaultContext, specs: Option<Vec<String>>) -> (r: Result<
    VaultContext,
    Error,
>)
    ensures
        match specs {
            None => (r matches Ok(c) && c.vault_path == ctx.vault_path && c.vault_id
                == ctx.vault_id && (c.command matches VaultCommand::ResourceAdd { specs: read }
                && read@.len() == 0)),
            Some(given) => match r {
                Ok(c) => c.vault_path == ctx.vault_path && c.vault_id == ctx.vault_id && (
                c.command matches VaultCommand::ResourceAdd { specs: read } && are_specs_of(
                    read@,
                    given@,
                )),
                Err(e) => exists|i: int| reports_first_bad_spec(e, given@, i),
            },
        },
{
    let mut read: Vec<VaultSpec> = Vec::new();
    match specs {
        Some(given) => {
            let mut i: usize = 0;
            while i < given.len()
                invariant
                    specs == Some(given),
                    i <= given.len(),
                    are_specs_of(read@, given@.take(i as int)),
                decreases given.len() - i,
            {
                match VaultSpec::parse(given[i].as_str()) {
                    Ok(spec) => {
                        read.push(spec);
                    },
                    Err(e) => {
                        proof {
                            assert forall|j: int| 0 <= j < i implies spec_of_text(
                                #[trigger] given@[j]@,
                            ).is_some() by {
                                assert(is_spec_of(Ok(read@[j]), given@.take(i as int)[j]@));
                            }
                            assert(reports_first_bad_spec(e, specs->Some_0@, i as int));
                        }
                        return Err(e);
                    },
                }
                proof {
                    assert forall|j: int| 0 <= j < i + 1 implies is_spec_of(
                        Ok(#[trigger] read@[j]),
                        given@.take(i + 1)[j]@,
                    ) by {
                        if j < i {
                            assert(is_spec_of(Ok(read@.drop_last()[j]), given@.take(i as int)[j]@));
                        }
                    }
                }
                i += 1;
            }
            proof {
                assert(given@.take(given.len() as int) =~= given@);
            }
        },
        None => {},
    }
    Ok(
        VaultContext {
            vault_path: ctx.vault_path,
            vault_id: ctx.vault_id,
            command: VaultCommand::ResourceAdd { specs: read },
        },
    )
}

} // verus!
