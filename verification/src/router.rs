//! Per-line routing: classify the line, apply the strict / only-fix policy,
//! and dispatch to the field-list renderer, the summary renderer, or the
//! plain / tag-translated passthrough.
use vstd::prelude::*;

use vstd::string::StrSliceExecFns;
use vstd::string::StringExecFns;

use crate::fields::{
    extract_fields, has_tag, is_digit_char, leading_digits, lemma_leading_digits_bounds,
    lemma_leading_digits_unique, spec_extract, tags_in_range,
};
use crate::numeral::{digits_val, is_digit, parse_digits_checked};
use crate::options::Options;
use crate::render::{format_to_string, spec_format};
use crate::strutil::{chars_to_string, push_all, str_eq, str_to_chars, subvec_chars};
use crate::summary::{
    check_msg_types, format_to_summary, is_word_char, is_word_char_exec, msg_types_known,
    opt_or_empty, spec_summary,
};
use crate::tables::{spec_tag_name, tag_name};

verus! {

/// What a line's digit run at position `p` is rendered as: the tag's name when
/// the run is word-bounded on both sides and names a known tag, the run
/// unchanged otherwise.
pub open spec fn tag_subst_at(s: Seq<char>, p: int) -> Seq<char> {
    let r = leading_digits(s.skip(p));
    let run = s.subrange(p, p + r);
    let v = digits_val(run);
    if (p == 0 || !is_word_char(s[p - 1])) && (p + r == s.len() || !is_word_char(s[p + r])) && v
        <= usize::MAX && spec_tag_name(v) is Some {
        opt_or_empty(spec_tag_name(v))
    } else {
        run
    }
}

/// The line with every word-bounded integer substring that names a known tag
/// replaced by that tag's name, scanning from position `p`.
pub open spec fn translate_tags_from(s: Seq<char>, p: int) -> Seq<char>
    decreases s.len() - p,
    via translate_tags_from_decreases
{
    if p < 0 || p >= s.len() {
        Seq::empty()
    } else if is_digit(s[p]) {
        tag_subst_at(s, p) + translate_tags_from(s, p + leading_digits(s.skip(p)))
    } else {
        seq![s[p]] + translate_tags_from(s, p + 1)
    }
}

#[via_fn]
proof fn translate_tags_from_decreases(s: Seq<char>, p: int) {
    if 0 <= p < s.len() && is_digit(s[p]) {
        lemma_leading_digits_bounds(s.skip(p));
        assert(s.skip(p)[0] == s[p]);
        lemma_leading_digits_bounds(s.skip(p).drop_first());
        assert(leading_digits(s.skip(p)) >= 1);
    }
}

/// The whole line after tag-number translation.
pub open spec fn spec_translate_tags(s: Seq<char>) -> Seq<char> {
    translate_tags_from(s, 0)
}

/// Translates tag numbers found as word-bounded integer substrings anywhere
/// in a non-message line; unknown or out-of-range numbers stay as they are.
pub fn parse_tags(input: &str) -> (r: String)
    ensures
        r@ == spec_translate_tags(input@),
{
    let chars = str_to_chars(input);
    let n = chars.len();
    let mut out: Vec<char> = Vec::new();
    let mut p: usize = 0;
    proof {
        assert(out@ + translate_tags_from(chars@, 0) =~= translate_tags_from(chars@, 0));
    }
    while p < n
        invariant
            p <= n,
            n == chars@.len(),
            chars@ == input@,
            spec_translate_tags(chars@) == out@ + translate_tags_from(chars@, p as int),
        decreases n - p,
    {
        let ghost suf = chars@.skip(p as int);
        proof {
            assert(suf.len() == n - p);
            assert(forall|k: int| 0 <= k < suf.len() ==> #[trigger] suf[k] == chars@[p + k]);
        }
        if !is_digit_char(chars[p]) {
            out.push(chars[p]);
            p = p + 1;
            proof {
                assert(spec_translate_tags(chars@) =~= out@ + translate_tags_from(
                    chars@,
                    p as int,
                ));
            }
        } else {
            let mut j: usize = p;
            while j < n && is_digit_char(chars[j])
                invariant
                    p <= j <= n,
                    n == chars@.len(),
                    forall|k: int| p <= k < j ==> is_digit(#[trigger] chars@[k]),
                decreases n - j,
            {
                j = j + 1;
            }
            proof {
                assert forall|k: int| 0 <= k < j - p implies is_digit(#[trigger] suf[k]) by {
                    assert(suf[k] == chars@[p + k]);
                }
                if j < n {
                    assert(suf[j - p] == chars@[j as int]);
                }
                lemma_leading_digits_unique(suf, j - p);
                assert(suf.take(j - p) =~= chars@.subrange(p as int, j as int));
            }
            let run = subvec_chars(&chars, p, j);
            let left_ok = p == 0 || !is_word_char_exec(chars[p - 1]);
            let right_ok = j == n || !is_word_char_exec(chars[j]);
            let replacement: Vec<char> = if left_ok && right_ok {
                match parse_digits_checked(&chars, p, j) {
                    Some(v) => match tag_name(v) {
                        Some(name) => str_to_chars(name),
                        Option::None => run,
                    },
                    Option::None => run,
                }
            } else {
                run
            };
            proof {
                assert(chars@.subrange(p as int, p + leading_digits(suf)) == chars@.subrange(
                    p as int,
                    j as int,
                ));
                assert(replacement@ == tag_subst_at(chars@, p as int));
                assert(translate_tags_from(chars@, p as int) == tag_subst_at(chars@, p as int)
                    + translate_tags_from(chars@, j as int));
            }
            push_all(&mut out, &replacement);
            p = j;
            proof {
                assert(spec_translate_tags(chars@) =~= out@ + translate_tags_from(
                    chars@,
                    p as int,
                ));
            }
        }
    }
    proof {
        assert(translate_tags_from(chars@, n as int) == Seq::<char>::empty());
        assert(out@ =~= spec_translate_tags(input@));
    }
    chars_to_string(&out)
}

/// The outcome of routing one line: text to write, nothing to write, or one
/// of the two fatal conditions the caller must surface (a tag too large to
/// parse; an unknown message-type code during summary rendering).
#[derive(Debug, PartialEq)]
pub enum RouteResult {
    Print(String),
    Skip,
    BadTag,
    BadMsgType,
}

/// Routes one line: a full message is always rendered; a partial message is
/// rendered unless `strict`; anything else is dropped under `only_fix` or
/// passed through (tag-translated under `tag`). The rendered text carries a
/// trailing newline, suppressed for the last line when the delimiter is the
/// default newline.
pub fn run(input: &str, last_line: bool, flags: &Options) -> (r: RouteResult)
    ensures
        ({
            let fs = spec_extract(input@);
            let o = flags@;
            let is_full = has_tag(fs, 8) && has_tag(fs, 10);
            if !tags_in_range(input@) {
                r is BadTag
            } else if fs.len() > 0 && (is_full || !o.strict) {
                match o.summary {
                    Some(template) => if msg_types_known(fs) {
                        r matches RouteResult::Print(s) && s@ == spec_summary(fs, template, o)
                            + "\n"@
                    } else {
                        r is BadMsgType
                    },
                    Option::None => r matches RouteResult::Print(s) && s@ == spec_format(fs, o) + (
                    if last_line && o.delimiter == "\n"@ {
                        Seq::<char>::empty()
                    } else {
                        "\n"@
                    }),
                }
            } else if o.only_fix {
                r is Skip
            } else {
                r matches RouteResult::Print(s) && s@ == (if o.tag {
                    spec_translate_tags(input@)
                } else {
                    input@
                }) + "\n"@
            }
        }),
{
    let fields = match extract_fields(input) {
        Some(f) => f,
        Option::None => {
            return RouteResult::BadTag;
        },
    };
    let ghost fs = spec_extract(input@);
    proof {
        assert(fs.len() == fields.deep_view().len());
    }
    let (has8, has10) = crate::fields::scan_begin_checksum(&fields);
    let is_full = has8 && has10;
    if fields.len() > 0 && (is_full || !flags.strict) {
        match &flags.summary {
            Some(_) => {
                if check_msg_types(&fields) {
                    let mut s = format_to_summary(&fields, flags);
                    s.append("\n");
                    RouteResult::Print(s)
                } else {
                    RouteResult::BadMsgType
                }
            },
            Option::None => {
                let mut s = format_to_string(&fields, flags);
                if !(last_line && str_eq(flags.delimiter.as_str(), "\n")) {
                    s.append("\n");
                }
                RouteResult::Print(s)
            },
        }
    } else {
        if flags.only_fix {
            RouteResult::Skip
        } else {
            let mut s = if flags.tag {
                parse_tags(input)
            } else {
                String::from_str(input)
            };
            s.append("\n");
            RouteResult::Print(s)
        }
    }
}

} // verus!
