//! What `harmonia shell` and `harmonia edit` hand to the operating system:
//! the exported environment and the command words.
use vstd::prelude::*;
use crate::cli::quality::{shell_single_quote, spec_single_quote};
use crate::error::HarmoniaError;
use crate::order::views;
use crate::text::{opt_str_view, opt_string_view, push_str, split_whitespace, string_of, words_spec};

verus! {

/// The `export` lines printed when the shell is not interactive: the
/// workspace root, then `PATH` and `PYTHONPATH` when they have a value,
/// each quoted for the shell.
pub open spec fn spec_shell_exports(root: Seq<char>, path: Option<Seq<char>>, pythonpath: Option<Seq<char>>) -> Seq<char> {
    "export HARMONIA_WORKSPACE="@ + spec_single_quote(root) + "\n"@ + match path {
        Some(p) => "export PATH="@ + spec_single_quote(p) + "\n"@,
        None => Seq::empty(),
    } + match pythonpath {
        Some(p) => "export PYTHONPATH="@ + spec_single_quote(p) + "\n"@,
        None => Seq::empty(),
    }
}

/// The `export` lines printed when the shell is not interactive.
pub fn shell_exports(root: &str, path: Option<&str>, pythonpath: Option<&str>) -> (r: String)
    ensures
        r@ == spec_shell_exports(root@, opt_str_view(path), opt_str_view(pythonpath)),
{
    let mut out = string_of("export HARMONIA_WORKSPACE=");
    let q = shell_single_quote(root);
    push_str(&mut out, q.as_str());
    push_str(&mut out, "\n");
    match path {
        Some(p) => {
            push_str(&mut out, "export PATH=");
            let q = shell_single_quote(p);
            push_str(&mut out, q.as_str());
            push_str(&mut out, "\n");
        },
        None => {},
    }
    match pythonpath {
        Some(p) => {
            push_str(&mut out, "export PYTHONPATH=");
            let q = shell_single_quote(p);
            push_str(&mut out, q.as_str());
            push_str(&mut out, "\n");
        },
        None => {},
    }
    proof {
        assert(out@ =~= spec_shell_exports(root@, opt_str_view(path), opt_str_view(pythonpath)));
    }
    out
}

/// The words of the command `harmonia shell --command` runs; an error when
/// there are none.
pub fn shell_command_words(command: &str) -> (r: Result<Vec<String>, HarmoniaError>)
    ensures
        match r {
            Ok(v) => views(v@) == words_spec(command@) && words_spec(command@).len() > 0,
            Err(HarmoniaError::Other(m)) => words_spec(command@).len() == 0 && m@ == "shell command cannot be empty"@,
            Err(_) => false,
        },
{
    let words = split_whitespace(command);
    if words.len() == 0 {
        return Err(HarmoniaError::Other(string_of("shell command cannot be empty")));
    }
    Ok(words)
}

/// The editor command: the one given, else `$EDITOR`, else `code`.
pub open spec fn spec_editor(editor: Option<Seq<char>>, env_editor: Option<Seq<char>>) -> Seq<char> {
    match editor {
        Some(e) => e,
        None => match env_editor {
            Some(e) => e,
            None => "code"@,
        },
    }
}

/// The words of the editor command; an error when there are none.
pub fn resolve_editor_command(editor: Option<&str>, env_editor: Option<String>) -> (r: Result<Vec<String>, HarmoniaError>)
    ensures
        match r {
            Ok(v) => views(v@) == words_spec(spec_editor(opt_str_view(editor), opt_string_view(env_editor))) && v@.len()
                > 0,
            Err(HarmoniaError::Other(m)) => words_spec(spec_editor(opt_str_view(editor), opt_string_view(env_editor))).len()
                == 0 && m@ == "editor command cannot be empty"@,
            Err(_) => false,
        },
{
    let command: String = match editor {
        Some(e) => string_of(e),
        None => match env_editor {
            Some(e) => e,
            None => string_of("code"),
        },
    };
    let words = split_whitespace(command.as_str());
    if words.len() == 0 {
        return Err(HarmoniaError::Other(string_of("editor command cannot be empty")));
    }
    Ok(words)
}

} // verus!
