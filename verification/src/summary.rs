//! Summary rendering: a template string whose tag-number tokens are replaced
//! by the matching fields' values, with the message-type name prepended for
//! tag 35.
use vstd::prelude::*;

use vstd::string::StrSliceExecFns;
use vstd::string::StringExecFns;

use crate::fields::{Field, SpecField};
use crate::numeral::{digits_of, spec_digits};
use crate::options::{Options, SpecOptions};
use crate::render::{spec_display_value, translate_combined_values, translate_value};
use crate::strutil::{chars_to_string, str_to_chars};
use crate::tables::{msg_type_name, spec_msg_type};

verus! {

/// A word character for the purposes of token boundaries: letters, digits and
/// the underscore.
pub open spec fn is_word_char(c: char) -> bool {
    ('a' <= c && c <= 'z') || ('A' <= c && c <= 'Z') || ('0' <= c && c <= '9') || c == '_'
}

/// Whether `needle` occurs at position `p` of `s` with word boundaries on both
/// sides.
pub open spec fn bounded_match_at(s: Seq<char>, needle: Seq<char>, p: int) -> bool {
    &&& 0 <= p
    &&& p + needle.len() <= s.len()
    &&& s.subrange(p, p + needle.len()) == needle
    &&& (p == 0 || !is_word_char(s[p - 1]))
    &&& (p + needle.len() == s.len() || !is_word_char(s[p + needle.len()]))
}

/// Replaces, left to right, every word-bounded occurrence of `needle` from
/// position `p` on; boundaries are judged against the original text.
pub open spec fn replace_from(s: Seq<char>, needle: Seq<char>, repl: Seq<char>, p: int) -> Seq<
    char,
>
    decreases s.len() - p,
{
    if p < 0 || p >= s.len() {
        Seq::empty()
    } else if needle.len() > 0 && bounded_match_at(s, needle, p) {
        repl + replace_from(s, needle, repl, p + needle.len())
    } else {
        seq![s[p]] + replace_from(s, needle, repl, p + 1)
    }
}

/// Replaces every word-bounded occurrence of `needle` in `s` by `repl`.
pub open spec fn replace_word_bounded(s: Seq<char>, needle: Seq<char>, repl: Seq<char>) -> Seq<
    char,
> {
    replace_from(s, needle, repl, 0)
}

/// Whether `needle` occurs anywhere in `hay` (plain substring containment).
pub open spec fn contains_seq(hay: Seq<char>, needle: Seq<char>) -> bool {
    exists|p: int|
        0 <= p && p + needle.len() <= hay.len() && #[trigger] hay.subrange(p, p + needle.len())
            == needle
}

/// Every field carrying tag 35 holds a message-type code the table knows.
pub open spec fn msg_types_known(fields: Seq<SpecField>) -> bool {
    forall|i: int|
        0 <= i < fields.len() && #[trigger] fields[i].tag == 35 ==> spec_msg_type(fields[i].value)
            is Some
}

pub open spec fn opt_or_empty(o: Option<Seq<char>>) -> Seq<char> {
    match o {
        Some(s) => s,
        Option::None => Seq::empty(),
    }
}

/// One field's effect on the summary text: substitute the field's value for
/// its word-bounded tag token when the template mentions the tag, then prepend
/// the message-type name for tag 35.
pub open spec fn spec_summary_step(
    r: Seq<char>,
    f: SpecField,
    template: Seq<char>,
    o: SpecOptions,
) -> Seq<char> {
    let value = spec_display_value(f, o.value, o.repeating);
    let r1 = if template.len() > 0 && contains_seq(template, spec_digits(f.tag)) {
        replace_word_bounded(r, spec_digits(f.tag), value)
    } else {
        r
    };
    if f.tag == 35 {
        opt_or_empty(spec_msg_type(f.value)) + seq![' '] + r1
    } else {
        r1
    }
}

/// The summary of a field sequence: the template, transformed by each field in
/// order.
pub open spec fn spec_summary(fields: Seq<SpecField>, template: Seq<char>, o: SpecOptions) -> Seq<
    char,
>
    decreases fields.len(),
{
    if fields.len() == 0 {
        template
    } else {
        spec_summary_step(spec_summary(fields.drop_last(), template, o), fields.last(), template, o)
    }
}

pub fn is_word_char_exec(c: char) -> (r: bool)
    ensures
        r == is_word_char(c),
{
    ('a' <= c && c <= 'z') || ('A' <= c && c <= 'Z') || ('0' <= c && c <= '9') || c == '_'
}

/// Whether `needle` occurs at position `p` of `s`.
fn match_at(s: &Vec<char>, needle: &Vec<char>, p: usize) -> (r: bool)
    requires
        p + needle@.len() <= s@.len(),
    ensures
        r == (s@.subrange(p as int, p + needle@.len()) == needle@),
{
    let n = s.len();
    let m = needle.len();
    let mut k: usize = 0;
    while k < m
        invariant
            k <= m,
            m == needle@.len(),
            n == s@.len(),
            p + m <= s@.len(),
            forall|j: int| 0 <= j < k ==> s@[p + j] == needle@[j],
        decreases m - k,
    {
        if s[p + k] != needle[k] {
            proof {
                assert(s@.subrange(p as int, p + needle@.len())[k as int] == s@[p + k]);
            }
            return false;
        }
        k = k + 1;
    }
    proof {
        assert(s@.subrange(p as int, p + needle@.len()) =~= needle@);
    }
    true
}

/// Whether `needle` occurs anywhere in `hay`.
fn contains_exec(hay: &Vec<char>, needle: &Vec<char>) -> (r: bool)
    requires
        needle@.len() > 0,
    ensures
        r == contains_seq(hay@, needle@),
{
    let n = hay.len();
    let m = needle.len();
    if m > n {
        return false;
    }
    let mut p: usize = 0;
    while p <= n - m
        invariant
            0 < m <= n,
            n == hay@.len(),
            m == needle@.len(),
            p <= n - m + 1,
            forall|q: int|
                0 <= q < p ==> #[trigger] hay@.subrange(q, q + needle@.len()) != needle@,
        decreases n - p,
    {
        if match_at(hay, needle, p) {
            return true;
        }
        p = p + 1;
    }
    false
}

/// Replaces every word-bounded occurrence of `needle` in `s` by `repl`.
fn replace_word_bounded_exec(s: &Vec<char>, needle: &Vec<char>, repl: &Vec<char>) -> (r: Vec<char>)
    requires
        needle@.len() > 0,
    ensures
        r@ == replace_word_bounded(s@, needle@, repl@),
{
    let n = s.len();
    let m = needle.len();
    let mut out: Vec<char> = Vec::new();
    let mut p: usize = 0;
    while p < n
        invariant
            p <= n,
            n == s@.len(),
            m == needle@.len(),
            m > 0,
            replace_word_bounded(s@, needle@, repl@) == out@ + replace_from(
                s@,
                needle@,
                repl@,
                p as int,
            ),
        decreases n - p,
    {
        let mut matched = false;
        if m <= n - p {
            if match_at(s, needle, p) {
                let left_ok = p == 0 || !is_word_char_exec(s[p - 1]);
                let right_ok = p + m == n || !is_word_char_exec(s[p + m]);
                matched = left_ok && right_ok;
            }
        }
        proof {
            assert(matched == bounded_match_at(s@, needle@, p as int));
        }
        if matched {
            crate::strutil::push_all(&mut out, repl);
            p = p + m;
        } else {
            out.push(s[p]);
            p = p + 1;
        }
        proof {
            assert(replace_word_bounded(s@, needle@, repl@) =~= out@ + replace_from(
                s@,
                needle@,
                repl@,
                p as int,
            ));
        }
    }
    proof {
        assert(replace_from(s@, needle@, repl@, n as int) == Seq::<char>::empty());
        assert(out@ =~= replace_word_bounded(s@, needle@, repl@));
    }
    out
}

/// Whether every tag-35 field holds a known message-type code.
pub fn check_msg_types(fields: &Vec<Field>) -> (r: bool)
    ensures
        r == msg_types_known(fields.deep_view()),
{
    let ghost dv = fields.deep_view();
    let mut k: usize = 0;
    while k < fields.len()
        invariant
            k <= fields@.len(),
            dv == fields.deep_view(),
            dv.len() == fields@.len(),
            forall|i: int|
                0 <= i < k && #[trigger] dv[i].tag == 35 ==> spec_msg_type(dv[i].value) is Some,
        decreases fields@.len() - k,
    {
        if fields[k].tag == 35 {
            if msg_type_name(fields[k].value.as_str()).is_none() {
                proof {
                    assert(dv[k as int].tag == 35 && !(spec_msg_type(dv[k as int].value) is Some));
                }
                return false;
            }
        }
        k = k + 1;
    }
    true
}

/// Renders the summary: starts from the template, substitutes each field's
/// (optionally translated) value for its word-bounded tag token where the
/// template mentions the tag, and prepends the message-type name for tag 35.
pub fn format_to_summary(input: &Vec<Field>, flags: &Options) -> (r: String)
    requires
        flags@.summary is Some,
        msg_types_known(input.deep_view()),
    ensures
        flags@.summary matches Some(template) ==> r@ == spec_summary(
            input.deep_view(),
            template,
            flags@,
        ),
{
    let template = match &flags.summary {
        Some(t) => t.clone(),
        Option::None => {
            proof {
                assert(false);
            }
            String::new()
        },
    };
    let ghost tv = template@;
    let template_chars = str_to_chars(template.as_str());
    let ghost dv = input.deep_view();
    let mut result = template.clone();
    let mut k: usize = 0;
    proof {
        assert(dv.take(0) =~= Seq::<SpecField>::empty());
    }
    while k < input.len()
        invariant
            k <= input@.len(),
            dv == input.deep_view(),
            dv.len() == input@.len(),
            tv == template@,
            template_chars@ == tv,
            flags@.summary == Some(tv),
            msg_types_known(dv),
            result@ == spec_summary(dv.take(k as int), tv, flags@),
        decreases input@.len() - k,
    {
        proof {
            assert(dv.take(k + 1).drop_last() =~= dv.take(k as int));
            assert(dv.take(k + 1).last() == dv[k as int]);
        }
        let field = &input[k];
        let value = if flags.value {
            if flags.repeating {
                translate_combined_values(field)
            } else {
                translate_value(field)
            }
        } else {
            field.value.clone()
        };
        let tag_digits = digits_of(field.tag);
        if !template.as_str().is_empty() {
            if contains_exec(&template_chars, &tag_digits) {
                let result_chars = str_to_chars(result.as_str());
                let value_chars = str_to_chars(value.as_str());
                proof {
                    crate::numeral::lemma_spec_digits_are_digits(field@.tag);
                }
                let replaced = replace_word_bounded_exec(&result_chars, &tag_digits, &value_chars);
                result = chars_to_string(&replaced);
            }
        }
        proof {
            let f = dv[k as int];
            let r1 = if tv.len() > 0 && contains_seq(tv, spec_digits(f.tag)) {
                replace_word_bounded(
                    spec_summary(dv.take(k as int), tv, flags@),
                    spec_digits(f.tag),
                    spec_display_value(f, flags@.value, flags@.repeating),
                )
            } else {
                spec_summary(dv.take(k as int), tv, flags@)
            };
            assert(result@ == r1);
        }
        if field.tag == 35 {
            let name = match msg_type_name(field.value.as_str()) {
                Some(n) => n,
                Option::None => {
                    proof {
                        assert(dv[k as int].tag == 35);
                        assert(false);
                    }
                    ""
                },
            };
            let mut prefixed = String::from_str(name);
            prefixed.append(" ");
            prefixed.append(result.as_str());
            result = prefixed;
            proof {
                reveal_strlit(" ");
                assert(" "@ =~= seq![' ']);
            }
        }
        proof {
            assert(result@ =~= spec_summary(dv.take(k + 1), tv, flags@));
        }
        k = k + 1;
    }
    proof {
        assert(dv.take(input@.len() as int) =~= dv);
    }
    result
}

} // verus!
