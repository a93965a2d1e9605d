//! The arguments handed to fzf, and how its answer is read.
use vstd::prelude::*;
use crate::config::FzfConfig;
use crate::paths::texts;
use crate::text::{owned, split_whitespace, trim, trimmed, words};

verus! {

/// The first word of `s`, or nothing.
pub open spec fn first_word(s: Seq<char>) -> Seq<char> {
    if words(s).len() > 0 {
        words(s)[0]
    } else {
        Seq::empty()
    }
}

/// The program that the preview command runs: its first word.
pub fn preview_program(config: &FzfConfig) -> (r: String)
    ensures
        r@ == first_word(config.preview_command@),
{
    let w = split_whitespace(config.preview_command.as_str());
    if w.len() > 0 {
        let r = w[0].clone();
        assert(texts(w@)[0] == r@);
        r
    } else {
        String::new()
    }
}

/// The arguments for fzf: when previews are on, the preview command if its
/// program is found, else `ls {}` (unless the command is blank); then the
/// words of `fzf_opts`.
pub open spec fn fzf_args_spec(config: &FzfConfig, preview_found: bool) -> Seq<Seq<char>> {
    let preview: Seq<Seq<char>> = if config.preview {
        if preview_found {
            seq!["--preview"@, config.preview_command@]
        } else if first_word(config.preview_command@).len() > 0 {
            seq!["--preview"@, "ls {}"@]
        } else {
            Seq::empty()
        }
    } else {
        Seq::empty()
    };
    let opts: Seq<Seq<char>> = match config.fzf_opts {
        Some(o) => words(o@),
        None => Seq::empty(),
    };
    preview + opts
}

/// The arguments for fzf; `preview_found` tells whether the preview
/// command's program was found on `PATH`.
pub fn fzf_args(config: &FzfConfig, preview_found: bool) -> (r: Vec<String>)
    ensures
        texts(r@) == fzf_args_spec(config, preview_found),
{
    let mut r: Vec<String> = Vec::new();
    if config.preview {
        if preview_found {
            r.push(owned("--preview"));
            r.push(config.preview_command.clone());
        } else {
            let program = preview_program(config);
            if !program.as_str().is_empty() {
                r.push(owned("--preview"));
                r.push(owned("ls {}"));
            }
        }
    }
    let ghost pre = texts(r@);
    match &config.fzf_opts {
        Some(o) => {
            let ws = split_whitespace(o.as_str());
            let mut i: usize = 0;
            while i < ws.len()
                invariant
                    i <= ws.len(),
                    texts(r@) == pre + texts(ws@).take(i as int),
                decreases ws.len() - i,
            {
                let w = ws[i].clone();
                let ghost before = r@;
                r.push(w);
                proof {
                    assert(texts(r@) =~= texts(before).push(ws@[i as int]@));
                    assert(texts(ws@).take(i + 1) =~= texts(ws@).take(i as int).push(ws@[i as int]@));
                }
                i = i + 1;
            }
            assert(texts(ws@).take(ws.len() as int) =~= texts(ws@));
        },
        None => {
            assert(pre + Seq::<Seq<char>>::empty() =~= pre);
        },
    }
    proof {
        let preview: Seq<Seq<char>> = if config.preview {
            if preview_found {
                seq!["--preview"@, config.preview_command@]
            } else if first_word(config.preview_command@).len() > 0 {
                seq!["--preview"@, "ls {}"@]
            } else {
                Seq::empty()
            }
        } else {
            Seq::empty()
        };
        assert(pre =~= preview);
    }
    r
}

/// The words of `fzf_opts`, none where it is not set.
pub open spec fn opts_words(config: &FzfConfig) -> Seq<Seq<char>> {
    match config.fzf_opts {
        Some(o) => words(o@),
        None => Seq::empty(),
    }
}

/// The arguments handed to fzf always end with the words of `fzf_opts`,
/// whether previews are on or off; before them stands at most one
/// `--preview` option: none when previews are off, the configured command
/// when its program was found, and `ls {}` when it was not (unless the
/// command is blank).
pub proof fn fzf_options_always_come_last(config: &FzfConfig, preview_found: bool)
    ensures
        ({
            let args = fzf_args_spec(config, preview_found);
            let n = args.len() - opts_words(config).len();
            &&& n >= 0
            &&& args.skip(n) == opts_words(config)
            &&& !config.preview ==> args == opts_words(config)
            &&& config.preview && preview_found ==> args.take(n) == seq![
                "--preview"@,
                config.preview_command@,
            ]
            &&& config.preview && !preview_found && first_word(config.preview_command@).len() > 0
                ==> args.take(n) == seq!["--preview"@, "ls {}"@]
            &&& config.preview && !preview_found && first_word(config.preview_command@).len() == 0
                ==> args == opts_words(config)
        }),
{
    let args = fzf_args_spec(config, preview_found);
    let pre: Seq<Seq<char>> = if config.preview {
        if preview_found {
            seq!["--preview"@, config.preview_command@]
        } else if first_word(config.preview_command@).len() > 0 {
            seq!["--preview"@, "ls {}"@]
        } else {
            Seq::empty()
        }
    } else {
        Seq::empty()
    };
    assert(args == pre + opts_words(config));
    let n = args.len() - opts_words(config).len();
    assert(n == pre.len());
    assert(args.skip(n) =~= opts_words(config));
    assert(args.take(n) =~= pre);
    if pre.len() == 0 {
        assert(args =~= opts_words(config));
    }
}

/// What fzf printed, read as the chosen project: trimmed, and `None` when
/// nothing is left.
pub fn selected_project(stdout: &str) -> (r: Option<String>)
    ensures
        match r {
            Some(p) => p@ == trimmed(stdout@) && p@.len() > 0,
            None => trimmed(stdout@).len() == 0,
        },
{
    let t = trim(stdout);
    if t.as_str().is_empty() {
        None
    } else {
        Some(t)
    }
}

} // verus!
