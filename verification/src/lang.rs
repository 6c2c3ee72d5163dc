//! Built-in per-locale suppression word lists.

use crate::kwmatch::split_unicode_ws;
use crate::unicode::{chars_eq_str, chars_to_string, str_to_chars};
use crate::words::join_sep;
use vstd::prelude::*;

verus! {

pub open spec fn words_de() -> Seq<char> {
    "z.B. bzw. ca. usw. vgl. Nr. ggf. inkl. evtl. Dr. Prof. Abs. bspw. d.h. u.a.\n"@
}

pub open spec fn words_en() -> Seq<char> {
    "e.g. i.e. etc. cf. vs. Dr. Prof. Mr. Mrs. Ms. St. no. approx. Jr. Sr. dept. est. min. max.\n"@
}

pub open spec fn words_es() -> Seq<char> {
    "Sr. Sra. Srta. Dr. Dra. etc. p.ej. Ud. Uds. pág. núm. aprox.\n"@
}

pub open spec fn words_fr() -> Seq<char> {
    "M. Mme. Dr. etc. p.ex. cf. av. env. max. min. n°. boul.\n"@
}

pub open spec fn words_it() -> Seq<char> {
    "Sig. Sig.ra Dott. Prof. ecc. p.es. cfr. pag. n. ca.\n"@
}

pub open spec fn words_ac() -> Seq<char> {
    "approx. cf. Dr. e.g. etc. i.e. Jr. max. min. Mr. Mrs. Ms. no. Prof. Sr. St. vs. viz. resp.\n"@
}

/// The built-in list for one language code, or none for an unknown code.
/// The code `none` selects the empty list.
pub open spec fn lang_list(tok: Seq<char>) -> Option<Seq<char>> {
    if tok == "de"@ {
        Some(words_de())
    } else if tok == "en"@ {
        Some(words_en())
    } else if tok == "es"@ {
        Some(words_es())
    } else if tok == "fr"@ {
        Some(words_fr())
    } else if tok == "it"@ {
        Some(words_it())
    } else if tok == "ac"@ {
        Some(words_ac())
    } else if tok == "none"@ {
        Some(""@)
    } else {
        None
    }
}

/// The concatenation of the lists of the known codes among `toks`.
pub open spec fn lang_accum(toks: Seq<Seq<char>>, i: int) -> Seq<char>
    decreases toks.len() - i,
{
    if i < 0 || i >= toks.len() {
        Seq::empty()
    } else {
        (match lang_list(toks[i]) {
            Some(l) => l,
            None => Seq::empty(),
        }) + lang_accum(toks, i + 1)
    }
}

/// The error messages for the unknown codes among `toks`.
pub open spec fn lang_errors(toks: Seq<Seq<char>>, i: int) -> Seq<Seq<char>>
    decreases toks.len() - i,
{
    if i < 0 || i >= toks.len() {
        Seq::empty()
    } else {
        (match lang_list(toks[i]) {
            Some(_) => Seq::empty(),
            None => seq!["unknown or unsupported language "@ + toks[i]],
        }) + lang_errors(toks, i + 1)
    }
}

/// The suppression words of the named languages, concatenated: the
/// whitespace-separated language codes of `lang_names` each select a
/// built-in list.  Unknown codes are collected into an error, one line per
/// code.
pub fn keep_word_list(lang_names: &str) -> (r: Result<String, String>)
    ensures
        ({
            let toks = crate::words::split_ws(lang_names@, crate::kwmatch::uws());
            match r {
                Ok(s) => lang_errors(toks, 0).len() == 0 && s@ == lang_accum(toks, 0),
                Err(m) => lang_errors(toks, 0).len() > 0 && m@ == join_sep(
                    lang_errors(toks, 0),
                    "\n"@,
                    0,
                ),
            }
        }),
{
    let chars = str_to_chars(lang_names);
    let toks = split_unicode_ws(&chars);
    let ghost toks_v = toks@.map(|_i: int, w: Vec<char>| w@);
    let mut words: Vec<char> = Vec::new();
    let mut errors: Vec<Vec<char>> = Vec::new();
    let mut i: usize = 0;
    while i < toks.len()
        invariant
            toks_v == toks@.map(|_i: int, w: Vec<char>| w@),
            i <= toks_v.len(),
            lang_accum(toks_v, 0) == words@ + lang_accum(toks_v, i as int),
            lang_errors(toks_v, 0) == errors@.map(|_i: int, e: Vec<char>| e@) + lang_errors(
                toks_v,
                i as int,
            ),
        decreases toks_v.len() - i,
    {
        let tok = &toks[i];
        proof {
            assert(toks_v[i as int] == tok@);
        }
        let list: Option<&'static str> = if chars_eq_str(tok, "de") {
            Some(
                "z.B. bzw. ca. usw. vgl. Nr. ggf. inkl. evtl. Dr. Prof. Abs. bspw. d.h. u.a.\n",
            )
        } else if chars_eq_str(tok, "en") {
            Some(
                "e.g. i.e. etc. cf. vs. Dr. Prof. Mr. Mrs. Ms. St. no. approx. Jr. Sr. dept. est. min. max.\n",
            )
        } else if chars_eq_str(tok, "es") {
            Some("Sr. Sra. Srta. Dr. Dra. etc. p.ej. Ud. Uds. pág. núm. aprox.\n")
        } else if chars_eq_str(tok, "fr") {
            Some("M. Mme. Dr. etc. p.ex. cf. av. env. max. min. n°. boul.\n")
        } else if chars_eq_str(tok, "it") {
            Some("Sig. Sig.ra Dott. Prof. ecc. p.es. cfr. pag. n. ca.\n")
        } else if chars_eq_str(tok, "ac") {
            Some(
                "approx. cf. Dr. e.g. etc. i.e. Jr. max. min. Mr. Mrs. Ms. no. Prof. Sr. St. vs. viz. resp.\n",
            )
        } else if chars_eq_str(tok, "none") {
            Some("")
        } else {
            None
        };
        match list {
            Some(l) => {
                let lc = str_to_chars(l);
                let ghost w0 = words@;
                let mut t: usize = 0;
                while t < lc.len()
                    invariant
                        t <= lc@.len(),
                        words@ =~= w0 + lc@.subrange(0, t as int),
                    decreases lc@.len() - t,
                {
                    words.push(lc[t]);
                    t += 1;
                }
                proof {
                    assert(words@ =~= w0 + lc@);
                    assert(lang_list(toks_v[i as int]) == Some(lc@));
                }
            },
            None => {
                let mut msg = str_to_chars("unknown or unsupported language ");
                let ghost m0 = msg@;
                let mut t: usize = 0;
                while t < tok.len()
                    invariant
                        t <= tok@.len(),
                        msg@ =~= m0 + tok@.subrange(0, t as int),
                    decreases tok@.len() - t,
                {
                    msg.push(tok[t]);
                    t += 1;
                }
                proof {
                    assert(msg@ =~= m0 + tok@);
                    assert(errors@.push(msg).map(|_i: int, e: Vec<char>| e@) =~= errors@.map(
                        |_i: int,
                        e: Vec<char>|
                        e@,
                    ).push(msg@));
                }
                errors.push(msg);
                proof {
                    assert(lang_list(toks_v[i as int]) is None);
                }
            },
        }
        proof {
            assert(lang_accum(toks_v, i as int) == (match lang_list(toks_v[i as int]) {
                Some(l) => l,
                None => Seq::<char>::empty(),
            }) + lang_accum(toks_v, i + 1));
            assert(lang_errors(toks_v, i as int) == (match lang_list(toks_v[i as int]) {
                Some(_) => Seq::<Seq<char>>::empty(),
                None => seq!["unknown or unsupported language "@ + toks_v[i as int]],
            }) + lang_errors(toks_v, i + 1));
        }
        i += 1;
    }
    proof {
        assert(lang_accum(toks_v, toks_v.len() as int) =~= Seq::<char>::empty());
        assert(lang_errors(toks_v, toks_v.len() as int) =~= Seq::<Seq<char>>::empty());
        assert(words@ =~= lang_accum(toks_v, 0));
        assert(errors@.map(|_i: int, e: Vec<char>| e@) =~= lang_errors(toks_v, 0));
    }
    if errors.len() == 0 {
        Ok(chars_to_string(&words))
    } else {
        let joined = crate::words::join_with(&errors, "\n");
        Err(chars_to_string(&joined))
    }
}

} // verus!
