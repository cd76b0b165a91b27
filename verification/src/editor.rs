//! The command that opens a worktree in the user's editor.
use vstd::prelude::*;

use crate::model::texts;
use crate::text::{chars_of, fields_of, fields_of_chars, owned, string_of};

verus! {

/// A program and its arguments.
#[derive(Clone, Debug, PartialEq, Eq)]
pub struct EditorCommand {
    pub program: String,
    pub args: Vec<String>,
}

/// The operating system the navigator runs on, as far as opening a path
/// depends on it.
#[derive(Clone, Copy, Debug, PartialEq, Eq, Structural)]
pub enum Platform {
    MacOs,
    Linux,
    Windows,
    Other,
}

/// The program and arguments that open a path without an editor setting:
/// `open` on macOS, `cmd /C start "" <path>` on Windows, `xdg-open`
/// elsewhere.
pub open spec fn platform_opener(platform: Platform, path: Seq<char>) -> (Seq<char>, Seq<Seq<char>>) {
    match platform {
        Platform::MacOs => ("open"@, seq![path]),
        Platform::Windows => ("cmd"@, seq!["/C"@, "start"@, ""@, path]),
        _ => ("xdg-open"@, seq![path]),
    }
}

/// The editor setting in use: `VISUAL` when set, else `EDITOR`.
pub open spec fn chosen_editor(visual: Option<String>, editor: Option<String>) -> Option<Seq<char>> {
    match visual {
        Some(v) => Some(v@),
        None => match editor {
            Some(e) => Some(e@),
            None => None,
        },
    }
}

/// The command that opens `path`: the words of the chosen editor setting
/// with the path as one last argument; without a setting, the platform's
/// opener.
pub fn command_for_path(
    path: &str,
    visual: Option<String>,
    editor: Option<String>,
    platform: Platform,
) -> (r: EditorCommand)
    requires
        chosen_editor(visual, editor) matches Some(c) ==> fields_of(c).len() > 0,
    ensures
        chosen_editor(visual, editor) matches Some(c) ==> r.program@ == fields_of(c)[0] && texts(
            r.args@,
        ) == fields_of(c).drop_first().push(path@),
        chosen_editor(visual, editor) is None ==> (r.program@, texts(r.args@)) == platform_opener(
            platform,
            path@,
        ),
{
    let chosen = match visual {
        Some(v) => Some(v),
        None => editor,
    };
    match chosen {
        Some(command) => {
            let words = fields_of_chars(&chars_of(command.as_str()));
            let ghost f = fields_of(command@);
            let program = string_of(&words[0]);
            let mut args: Vec<String> = Vec::new();
            let mut i: usize = 1;
            while i < words.len()
                invariant
                    1 <= i <= words@.len(),
                    words@.len() == f.len(),
                    forall|q: int| 0 <= q < words@.len() ==> #[trigger] words@[q]@ == f[q],
                    texts(args@) == f.subrange(1, i as int),
                decreases words.len() - i,
            {
                let ghost before = args@;
                args.push(string_of(&words[i]));
                assert(texts(args@) =~= texts(before).push(f[i as int]));
                assert(f.subrange(1, i as int + 1) =~= f.subrange(1, i as int).push(f[i as int]));
                i += 1;
            }
            let ghost before = args@;
            args.push(owned(path));
            assert(texts(args@) =~= texts(before).push(path@));
            assert(f.subrange(1, f.len() as int) =~= f.drop_first());
            EditorCommand { program, args }
        },
        None => {
            proof {
                reveal_strlit("open");
                reveal_strlit("cmd");
                reveal_strlit("/C");
                reveal_strlit("start");
                reveal_strlit("");
                reveal_strlit("xdg-open");
            }
            let mut args: Vec<String> = Vec::new();
            let program = match platform {
                Platform::MacOs => owned("open"),
                Platform::Windows => {
                    args.push(owned("/C"));
                    args.push(owned("start"));
                    args.push(owned(""));
                    owned("cmd")
                },
                _ => owned("xdg-open"),
            };
            args.push(owned(path));
            assert(texts(args@) =~= platform_opener(platform, path@).1);
            EditorCommand { program, args }
        },
    }
}

} // verus!
