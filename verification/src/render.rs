//! Rendering a field sequence as text: per-field tag-name lookup, value
//! translation, separator and delimiter, and optional colourization.
use vstd::prelude::*;

use vstd::string::StringExecFns;

use crate::fields::{Field, SpecField};
use crate::fold::{combine_repeating_groups, spec_fold};
use crate::options::{Options, SpecOptions};
use crate::strutil::{chars_to_string, str_to_chars};
use crate::tables::{spec_tag_display, spec_value_name, tag_display, value_name};

verus! {

/// The highlight escape around a piece of text, when colour is on.
pub open spec fn colour_wrap(s: Seq<char>, on: bool) -> Seq<char> {
    if on {
        "\x1b[33m"@ + s + "\x1b[0m"@
    } else {
        s
    }
}

/// The separator between a field's name and value.
pub open spec fn spec_separator(strip: bool) -> Seq<char> {
    if strip {
        "="@
    } else {
        " = "@
    }
}

/// A value after optional translation: the table's name for the code where
/// known, the raw value otherwise.
pub open spec fn spec_translate(tag: int, value: Seq<char>) -> Seq<char> {
    match spec_value_name(tag, value) {
        Some(name) => name,
        Option::None => value,
    }
}

/// The pieces of a value, split on commas (an empty value yields one empty
/// piece).
pub open spec fn split_commas(s: Seq<char>) -> Seq<Seq<char>>
    decreases s.len(),
{
    if s.len() == 0 {
        seq![Seq::empty()]
    } else if s[0] == ',' {
        seq![Seq::<char>::empty()] + split_commas(s.drop_first())
    } else {
        let rest = split_commas(s.drop_first());
        seq![seq![s[0]] + rest[0]] + rest.drop_first()
    }
}

pub proof fn lemma_split_commas_nonempty(s: Seq<char>)
    ensures
        split_commas(s).len() >= 1,
    decreases s.len(),
{
    if s.len() > 0 && s[0] != ',' {
        lemma_split_commas_nonempty(s.drop_first());
    }
}

/// Joins translated pieces with commas; a comma is written before a piece
/// exactly when the text so far is non-empty.
pub open spec fn join_translated(tag: int, pieces: Seq<Seq<char>>) -> Seq<char>
    decreases pieces.len(),
{
    if pieces.len() == 0 {
        Seq::empty()
    } else {
        let prev = join_translated(tag, pieces.drop_last());
        let t = spec_translate(tag, pieces.last());
        if prev.len() == 0 {
            t
        } else {
            prev + seq![','] + t
        }
    }
}

/// A folded value after per-piece translation: each comma-separated piece is
/// translated independently.
pub open spec fn spec_translate_combined(tag: int, value: Seq<char>) -> Seq<char> {
    join_translated(tag, split_commas(value))
}

/// How a field's value is displayed under the active switches.
pub open spec fn spec_display_value(f: SpecField, translate: bool, repeating: bool) -> Seq<char> {
    if translate {
        if repeating {
            spec_translate_combined(f.tag, f.value)
        } else {
            spec_translate(f.tag, f.value)
        }
    } else {
        f.value
    }
}

/// One rendered field: name, separator, value, delimiter.
pub open spec fn spec_render_field(f: SpecField, o: SpecOptions) -> Seq<char> {
    spec_tag_display(f.tag) + colour_wrap(spec_separator(o.strip), o.colour)
        + spec_display_value(f, o.value, o.repeating) + colour_wrap(o.delimiter, o.colour)
}

/// A rendered field sequence: the fields in order, each as `spec_render_field`.
pub open spec fn spec_render_fields(fields: Seq<SpecField>, o: SpecOptions) -> Seq<char>
    decreases fields.len(),
{
    if fields.len() == 0 {
        Seq::empty()
    } else {
        spec_render_fields(fields.drop_last(), o) + spec_render_field(fields.last(), o)
    }
}

/// The full field-list rendering, folding repeating groups first when the
/// switch is on.
pub open spec fn spec_format(fields: Seq<SpecField>, o: SpecOptions) -> Seq<char> {
    if o.repeating {
        spec_render_fields(spec_fold(fields), o)
    } else {
        spec_render_fields(fields, o)
    }
}

/// Wraps a piece of text in the highlight escape when colour is on.
pub fn add_colour(input: &str, use_colour: bool) -> (r: String)
    ensures
        r@ == colour_wrap(input@, use_colour),
{
    if use_colour {
        let mut s = String::from_str("\x1b[33m");
        s.append(input);
        s.append("\x1b[0m");
        s
    } else {
        String::from_str(input)
    }
}

/// Translates a field's coded value through the value table, falling back to
/// the raw value.
pub fn translate_value(field: &Field) -> (r: String)
    ensures
        r@ == spec_translate(field@.tag, field@.value),
{
    match value_name(field.tag, field.value.as_str()) {
        Some(name) => String::from_str(name),
        Option::None => field.value.clone(),
    }
}

/// Splits a character vector on commas.
fn split_commas_exec(s: &Vec<char>) -> (r: Vec<Vec<char>>)
    ensures
        r.deep_view() == split_commas(s@),
{
    let n = s.len();
    let mut out: Vec<Vec<char>> = Vec::new();
    let mut cur: Vec<char> = Vec::new();
    let mut i: usize = 0;
    proof {
        assert(s@.skip(0) =~= s@);
    }
    while i < n
        invariant
            i <= n,
            n == s@.len(),
            split_commas(s@) == out.deep_view() + seq![cur@ + split_commas(s@.skip(i as int))[0]]
                + split_commas(s@.skip(i as int)).drop_first(),
        decreases n - i,
    {
        let ghost suf = s@.skip(i as int);
        proof {
            assert(suf.len() == n - i);
            assert(suf[0] == s@[i as int]);
            assert(suf.drop_first() =~= s@.skip(i + 1));
            lemma_split_commas_nonempty(s@.skip(i + 1));
        }
        let c = s[i];
        let ghost rest = split_commas(s@.skip(i + 1));
        if c == ',' {
            let ghost old_out = out.deep_view();
            let ghost old_cur = cur@;
            proof {
                assert(split_commas(suf) == seq![Seq::<char>::empty()] + rest);
                assert(split_commas(suf)[0] =~= Seq::<char>::empty());
                assert(split_commas(suf).drop_first() =~= rest);
                assert(old_cur + split_commas(suf)[0] =~= old_cur);
            }
            out.push(cur);
            cur = Vec::new();
            proof {
                assert(out.deep_view() =~~= old_out.push(old_cur));
                assert(cur@ + rest[0] =~= rest[0]);
                assert(seq![rest[0]] + rest.drop_first() =~= rest);
                assert(out.deep_view() + seq![cur@ + rest[0]] + rest.drop_first() =~= old_out
                    + seq![old_cur] + rest);
                assert(old_out + seq![old_cur] + rest =~= old_out + seq![
                    old_cur + split_commas(suf)[0],
                ] + split_commas(suf).drop_first());
            }
        } else {
            proof {
                assert(split_commas(suf) == seq![seq![suf[0]] + rest[0]] + rest.drop_first());
                assert(split_commas(suf)[0] == seq![suf[0]] + rest[0]);
                assert(cur@.push(c) + rest[0] =~= cur@ + split_commas(suf)[0]);
                assert(split_commas(suf).drop_first() =~= rest.drop_first());
            }
            let ghost old_out = out.deep_view();
            cur.push(c);
            proof {
                assert(out.deep_view() + seq![cur@ + rest[0]] + rest.drop_first() =~= old_out
                    + seq![cur@ + rest[0]] + rest.drop_first());
                assert(old_out + seq![cur@ + rest[0]] + rest.drop_first() =~= split_commas(s@));
            }
        }
        i = i + 1;
    }
    proof {
        assert(s@.skip(n as int) =~= Seq::<char>::empty());
        assert(split_commas(s@.skip(n as int)) == seq![Seq::<char>::empty()]);
        assert(cur@ + Seq::<char>::empty() =~= cur@);
        assert(seq![Seq::<char>::empty()].drop_first() =~= Seq::<Seq<char>>::empty());
        assert(split_commas(s@) =~= out.deep_view().push(cur@));
    }
    let ghost old_out = out.deep_view();
    let ghost final_piece = cur@;
    out.push(cur);
    proof {
        assert(out.deep_view() =~~= old_out.push(final_piece));
        assert(out.deep_view() =~= split_commas(s@));
    }
    out
}

/// Translates each comma-separated piece of a folded value independently.
pub fn translate_combined_values(field: &Field) -> (r: String)
    ensures
        r@ == spec_translate_combined(field@.tag, field@.value),
{
    let chars = str_to_chars(field.value.as_str());
    let pieces = split_commas_exec(&chars);
    let ghost pv = pieces.deep_view();
    let mut out = String::new();
    let mut k: usize = 0;
    proof {
        assert(pv.take(0) =~= Seq::<Seq<char>>::empty());
    }
    while k < pieces.len()
        invariant
            k <= pieces@.len(),
            pv == pieces.deep_view(),
            pv.len() == pieces@.len(),
            field@.tag <= usize::MAX,
            out@ == join_translated(field@.tag, pv.take(k as int)),
        decreases pieces@.len() - k,
    {
        proof {
            assert(pv.take(k + 1).drop_last() =~= pv.take(k as int));
            assert(pv.take(k + 1).last() == pv[k as int]);
            assert(pieces@[k as int]@ =~= pv[k as int]);
        }
        let piece = chars_to_string(&pieces[k]);
        let translated = match value_name(field.tag, piece.as_str()) {
            Some(name) => String::from_str(name),
            Option::None => piece,
        };
        proof {
            assert(translated@ == spec_translate(field@.tag, pv[k as int]));
        }
        let ghost prev = out@;
        if !out.as_str().is_empty() {
            out.append(",");
            proof {
                reveal_strlit(",");
                assert(","@ =~= seq![',']);
                assert(out@ =~= prev + seq![',']);
            }
        }
        out.append(translated.as_str());
        proof {
            if prev.len() == 0 {
                assert(out@ =~= translated@);
            } else {
                assert(out@ =~= prev + seq![','] + translated@);
            }
            assert(out@ =~= join_translated(field@.tag, pv.take(k + 1)));
        }
        k = k + 1;
    }
    proof {
        assert(pv.take(pieces@.len() as int) =~= pv);
    }
    out
}

/// Clones a field vector (the derived clone carries no specification).
fn clone_fields(input: &Vec<Field>) -> (r: Vec<Field>)
    ensures
        r.deep_view() == input.deep_view(),
{
    let mut r: Vec<Field> = Vec::new();
    let mut k: usize = 0;
    while k < input.len()
        invariant
            k <= input@.len(),
            r.deep_view() == input.deep_view().take(k as int),
        decreases input@.len() - k,
    {
        let tag = input[k].tag;
        let value = input[k].value.clone();
        let field = Field { tag, value };
        proof {
            assert(field@ =~= input.deep_view()[k as int]);
        }
        let ghost old_r = r.deep_view();
        r.push(field);
        proof {
            assert(r.deep_view() =~= old_r.push(input.deep_view()[k as int]));
            assert(r.deep_view() =~= input.deep_view().take(k + 1));
        }
        k = k + 1;
    }
    proof {
        assert(input.deep_view().take(input@.len() as int) =~= input.deep_view());
    }
    r
}

/// Renders a field sequence as the full field list: for each field its tag
/// name (or numeral), separator, optionally translated value, and delimiter,
/// with repeating groups folded first when that switch is on.
pub fn format_to_string(input: &Vec<Field>, flags: &Options) -> (r: String)
    ensures
        r@ == spec_format(input.deep_view(), flags@),
{
    let fields = if flags.repeating {
        combine_repeating_groups(input)
    } else {
        clone_fields(input)
    };
    let ghost dv = fields.deep_view();
    let mut out = String::new();
    let mut k: usize = 0;
    proof {
        assert(dv.take(0) =~= Seq::<SpecField>::empty());
    }
    while k < fields.len()
        invariant
            k <= fields@.len(),
            dv == fields.deep_view(),
            dv.len() == fields@.len(),
            out@ == spec_render_fields(dv.take(k as int), flags@),
        decreases fields@.len() - k,
    {
        proof {
            assert(dv.take(k + 1).drop_last() =~= dv.take(k as int));
            assert(dv.take(k + 1).last() == dv[k as int]);
        }
        let field = &fields[k];
        let name = tag_display(field.tag);
        out.append(name.as_str());
        let separator = add_colour(if flags.strip { "=" } else { " = " }, flags.colour);
        out.append(separator.as_str());
        let value = if flags.value {
            if flags.repeating {
                translate_combined_values(field)
            } else {
                translate_value(field)
            }
        } else {
            field.value.clone()
        };
        out.append(value.as_str());
        let delimiter = add_colour(flags.delimiter.as_str(), flags.colour);
        out.append(delimiter.as_str());
        proof {
            assert(out@ =~= spec_render_fields(dv.take(k + 1), flags@));
        }
        k = k + 1;
    }
    proof {
        assert(dv.take(fields@.len() as int) =~= dv);
    }
    out
}

} // verus!
