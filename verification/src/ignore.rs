//! Ignore regions delimited by HTML-comment directives.

use crate::unicode::{chars_contain_str, contains_seq, str_to_chars};
use vstd::prelude::*;

verus! {

/// Whether `s` looks like an HTML comment: it starts with the comment
/// opener and ends with the closer, optionally followed by one linebreak.
pub open spec fn spec_is_html_comment(s: Seq<char>) -> bool {
    s.len() >= 4 && s.subrange(0, 4) == "<!--"@ && ((s.len() >= 3 && s.subrange(
        s.len() - 3,
        s.len() as int,
    ) == "-->"@) || (s.len() >= 4 && s.subrange(s.len() - 4, s.len() as int) == "-->\n"@))
}

/// How processing one HTML snippet changes the ignore state: a comment
/// holding a start directive turns it on, one holding an end directive
/// turns it off, in that order; anything else leaves it alone.  Two marker
/// vocabularies are recognised.
pub open spec fn spec_next_ignore(cur: bool, s: Seq<char>) -> bool {
    if spec_is_html_comment(s) {
        let started = if contains_seq(s, "mdslw-ignore-start"@) || contains_seq(
            s,
            "prettier-ignore-start"@,
        ) {
            true
        } else {
            cur
        };
        if contains_seq(s, "mdslw-ignore-end"@) || contains_seq(s, "prettier-ignore-end"@) {
            false
        } else {
            started
        }
    } else {
        cur
    }
}

fn is_html_comment(s: &Vec<char>) -> (r: bool)
    ensures
        r == spec_is_html_comment(s@),
{
    let n = s.len();
    if n < 4 {
        return false;
    }
    let starts = s[0] == '<' && s[1] == '!' && s[2] == '-' && s[3] == '-';
    proof {
        assert("<!--"@.len() == 4) by {
            reveal_strlit("<!--");
        }
        assert("<!--"@[0] == '<' && "<!--"@[1] == '!' && "<!--"@[2] == '-' && "<!--"@[3] == '-')
            by {
            reveal_strlit("<!--");
        }
        if starts {
            assert(s@.subrange(0, 4) =~= "<!--"@);
        } else {
            assert(s@.subrange(0, 4)[0] == s@[0] && s@.subrange(0, 4)[1] == s@[1] && s@.subrange(
                0,
                4,
            )[2] == s@[2] && s@.subrange(0, 4)[3] == s@[3]);
        }
    }
    if !starts {
        return false;
    }
    let ends3 = s[n - 3] == '-' && s[n - 2] == '-' && s[n - 1] == '>';
    proof {
        assert("-->"@.len() == 3 && "-->"@[0] == '-' && "-->"@[1] == '-' && "-->"@[2] == '>') by {
            reveal_strlit("-->");
        }
        if ends3 {
            assert(s@.subrange(s@.len() - 3, s@.len() as int) =~= "-->"@);
        } else {
            assert(forall|t: int|
                0 <= t < 3 ==> #[trigger] s@.subrange(s@.len() - 3, s@.len() as int)[t] == s@[s@.len()
                    - 3 + t]);
        }
    }
    if ends3 {
        return true;
    }
    let ends4 = s[n - 4] == '-' && s[n - 3] == '-' && s[n - 2] == '>' && s[n - 1] == '\n';
    proof {
        assert("-->\n"@.len() == 4 && "-->\n"@[0] == '-' && "-->\n"@[1] == '-' && "-->\n"@[2]
            == '>' && "-->\n"@[3] == '\n') by {
            reveal_strlit("-->\n");
        }
        if ends4 {
            assert(s@.subrange(s@.len() - 4, s@.len() as int) =~= "-->\n"@);
        } else {
            assert(forall|t: int|
                0 <= t < 4 ==> #[trigger] s@.subrange(s@.len() - 4, s@.len() as int)[t] == s@[s@.len()
                    - 4 + t]);
        }
    }
    ends4
}

/// Tracks whether the scanner currently sits inside an ignore region.
pub struct IgnoreByHtmlComment {
    pub ignore: bool,
}

impl IgnoreByHtmlComment {
    pub fn new() -> (r: Self)
        ensures
            !r.ignore,
    {
        IgnoreByHtmlComment { ignore: false }
    }

    /// Determine whether the HTML that is processed is a comment and
    /// whether it modifies the ignore behaviour.
    pub fn process_html(&mut self, s: &str)
        ensures
            final(self).ignore == spec_next_ignore(old(self).ignore, s@),
    {
        let chars = str_to_chars(s);
        if is_html_comment(&chars) {
            if chars_contain_str(&chars, "mdslw-ignore-start") || chars_contain_str(
                &chars,
                "prettier-ignore-start",
            ) {
                self.ignore = true;
            }
            if chars_contain_str(&chars, "mdslw-ignore-end") || chars_contain_str(
                &chars,
                "prettier-ignore-end",
            ) {
                self.ignore = false;
            }
        }
    }

    pub fn should_be_ignored(&self) -> (r: bool)
        ensures
            r == self.ignore,
    {
        self.ignore
    }
}

} // verus!
