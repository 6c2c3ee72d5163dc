//! The upstream formatter command and how it is put together.

use crate::kwmatch::{split_unicode_ws, uws};
use crate::unicode::{chars_to_string, str_to_chars};
use crate::words::{split_str_from, split_ws};
use vstd::prelude::*;

verus! {

/// An upstream command with its arguments.  Running it is left to the
/// surrounding tooling.
pub struct Upstream {
    pub cmd: String,
    pub args: Vec<String>,
}

/// How the argument string splits into pieces: on whitespace when no
/// separator is given, at the separator otherwise.
pub open spec fn split_args(args: Seq<char>, sep: Seq<char>) -> Seq<Seq<char>> {
    if sep.len() == 0 {
        split_ws(args, uws())
    } else {
        split_str_from(args, sep, 0, 0)
    }
}

impl Upstream {
    /// Build the upstream command: `command` when it is non-empty, else the
    /// first argument piece, with the remaining pieces as arguments.  With
    /// an empty command and no argument piece there is nothing to run.
    pub fn from_cfg(command: &str, args: &str, sep: &str) -> (r: Result<Upstream, String>)
        ensures
            ({
                let pieces = split_args(args@, sep@);
                match r {
                    Ok(u) => {
                        if command@.len() > 0 {
                            u.cmd@ == command@ && u.args@.map(|_i: int, a: String| a@) == pieces
                        } else {
                            pieces.len() > 0 && u.cmd@ == pieces[0] && u.args@.map(
                                |_i: int,
                                a: String|
                                a@,
                            ) == pieces.drop_first()
                        }
                    },
                    Err(_) => command@.len() == 0 && pieces.len() == 0,
                }
            }),
    {
        let achars = str_to_chars(args);
        let pieces: Vec<Vec<char>> = if sep.unicode_len() == 0 {
            split_unicode_ws(&achars)
        } else {
            crate::words::split_at_str(&achars, sep)
        };
        let ghost pieces_v = pieces@.map(|_i: int, w: Vec<char>| w@);
        let mut strings: Vec<String> = Vec::new();
        let mut i: usize = 0;
        while i < pieces.len()
            invariant
                pieces_v == pieces@.map(|_i: int, w: Vec<char>| w@),
                i <= pieces_v.len(),
                strings@.len() == i,
                forall|k: int| 0 <= k < i ==> (#[trigger] strings@[k])@ == pieces_v[k],
            decreases pieces_v.len() - i,
        {
            strings.push(chars_to_string(&pieces[i]));
            i += 1;
        }
        proof {
            assert(strings@.map(|_i: int, a: String| a@) =~= pieces_v);
        }
        if !command.is_empty() {
            let cmd = command.to_owned();
            return Ok(Upstream { cmd, args: strings });
        }
        if strings.len() == 0 {
            let mut msg = String::new();
            msg.append("failed to extract upstream command from arguments '");
            msg.append(args);
            msg.append("'.");
            return Err(msg);
        }
        let cmd = chars_to_string(&pieces[0]);
        let mut rest: Vec<String> = Vec::new();
        let mut k: usize = 1;
        while k < pieces.len()
            invariant
                pieces_v == pieces@.map(|_i: int, w: Vec<char>| w@),
                1 <= k <= pieces_v.len(),
                rest@.len() == k - 1,
                forall|t: int| 0 <= t < k - 1 ==> (#[trigger] rest@[t])@ == pieces_v[t + 1],
            decreases pieces_v.len() - k,
        {
            rest.push(chars_to_string(&pieces[k]));
            k += 1;
        }
        proof {
            assert(rest@.map(|_i: int, a: String| a@) =~= pieces_v.drop_first());
        }
        Ok(Upstream { cmd, args: rest })
    }
}

} // verus!
