//! Crate-wide laws, each proved once and for all:
//! a line without a digit-equals pattern yields no fields, and plain
//! rendering of a field sequence can be parsed back into the same
//! (name, value) pairs.
use vstd::prelude::*;

use crate::fields::{
    field_at_head, leading_digits, lemma_leading_digits_bounds, spec_extract, SpecField,
};
use crate::numeral::is_digit;
use crate::options::SpecOptions;
use crate::render::{spec_format, spec_render_field, spec_render_fields};
use crate::tables::spec_tag_display;

verus! {

/// A line in which no digit is immediately followed by an equals sign holds
/// no field at all: extraction returns the empty sequence, so such a line is
/// classified as carrying no message.
pub proof fn lemma_no_digit_equals_no_fields(s: Seq<char>)
    requires
        forall|p: int|
            0 <= p < s.len() - 1 ==> !(is_digit(#[trigger] s[p]) && s[p + 1] == '='),
    ensures
        spec_extract(s).len() == 0,
    decreases s.len(),
{
    if s.len() == 0 {
    } else if !is_digit(s[0]) {
        assert forall|p: int|
            0 <= p < s.drop_first().len() - 1 implies !(is_digit(#[trigger] s.drop_first()[p])
            && s.drop_first()[p + 1] == '=') by {
            assert(s.drop_first()[p] == s[p + 1]);
            assert(s.drop_first()[p + 1] == s[p + 2]);
        }
        lemma_no_digit_equals_no_fields(s.drop_first());
    } else {
        lemma_leading_digits_bounds(s);
        let e = leading_digits(s);
        if field_at_head(s) {
            assert(is_digit(s[e - 1]));
            assert(s[e] == '=');
            assert(false);
        }
        let suf = s.skip(e);
        assert forall|p: int|
            0 <= p < suf.len() - 1 implies !(is_digit(#[trigger] suf[p]) && suf[p + 1] == '=') by {
            assert(suf[p] == s[e + p]);
            assert(suf[p + 1] == s[e + p + 1]);
        }
        lemma_no_digit_equals_no_fields(suf);
    }
}

/// Splitting a character sequence on a delimiter character; an empty input
/// yields one empty piece, and every delimiter ends a piece.
pub open spec fn split_on_char(s: Seq<char>, d: char) -> Seq<Seq<char>>
    decreases s.len(),
{
    if s.len() == 0 {
        seq![Seq::empty()]
    } else if s[0] == d {
        seq![Seq::<char>::empty()] + split_on_char(s.drop_first(), d)
    } else {
        let rest = split_on_char(s.drop_first(), d);
        seq![seq![s[0]] + rest[0]] + rest.drop_first()
    }
}

proof fn lemma_split_on_char_nonempty(s: Seq<char>, d: char)
    ensures
        split_on_char(s, d).len() >= 1,
    decreases s.len(),
{
    if s.len() > 0 && s[0] != d {
        lemma_split_on_char_nonempty(s.drop_first(), d);
    }
}

proof fn lemma_split_on_concat(a: Seq<char>, b: Seq<char>, d: char)
    requires
        forall|i: int| 0 <= i < a.len() ==> a[i] != d,
    ensures
        split_on_char(a + seq![d] + b, d) == seq![a] + split_on_char(b, d),
    decreases a.len(),
{
    let s = a + seq![d] + b;
    if a.len() == 0 {
        assert(s =~= seq![d] + b);
        assert(s[0] == d);
        assert(s.drop_first() =~= b);
        assert(split_on_char(s, d) =~~= seq![a] + split_on_char(b, d));
    } else {
        assert(s[0] == a[0]);
        assert(s[0] != d);
        assert(s.drop_first() =~= a.drop_first() + seq![d] + b);
        lemma_split_on_concat(a.drop_first(), b, d);
        let rest = split_on_char(s.drop_first(), d);
        assert(rest == seq![a.drop_first()] + split_on_char(b, d));
        assert(rest[0] == a.drop_first());
        assert(seq![s[0]] + rest[0] =~= a);
        assert(rest.drop_first() =~= split_on_char(b, d));
        assert(split_on_char(s, d) =~= seq![a] + split_on_char(b, d));
    }
}

/// Whether the name/value separator `" = "` stands at position `p`.
pub open spec fn sep_at(seg: Seq<char>, p: int) -> bool {
    &&& 0 <= p
    &&& p + 3 <= seg.len()
    &&& seg[p] == ' '
    &&& seg[p + 1] == '='
    &&& seg[p + 2] == ' '
}

/// The position of the first `" = "` separator in a rendered segment.
pub open spec fn first_sep(seg: Seq<char>) -> int
    decreases seg.len(),
{
    if seg.len() == 0 {
        0
    } else if sep_at(seg, 0) {
        0
    } else {
        1 + first_sep(seg.drop_first())
    }
}

/// A rendered segment read back as a (name, value) pair: the text before the
/// first `" = "` separator, and the text after it.
pub open spec fn parse_pair(seg: Seq<char>) -> (Seq<char>, Seq<char>) {
    (seg.take(first_sep(seg)), seg.skip(first_sep(seg) + 3))
}

proof fn lemma_first_sep_of_pair(name: Seq<char>, value: Seq<char>)
    requires
        forall|i: int| 0 <= i < name.len() ==> name[i] != ' ',
    ensures
        first_sep(name + seq![' ', '=', ' '] + value) == name.len(),
    decreases name.len(),
{
    let seg = name + seq![' ', '=', ' '] + value;
    if name.len() == 0 {
        assert(seg[0] == ' ');
        assert(seg[1] == '=');
        assert(seg[2] == ' ');
        assert(sep_at(seg, 0));
    } else {
        assert(seg[0] == name[0]);
        assert(!sep_at(seg, 0));
        assert(seg.drop_first() =~= name.drop_first() + seq![' ', '=', ' '] + value);
        lemma_first_sep_of_pair(name.drop_first(), value);
    }
}

/// The pairs read back from a rendered line: split on the delimiter, drop the
/// empty piece after the final delimiter, and split each segment at its first
/// `" = "` separator.
pub open spec fn reparse_pairs(rendered: Seq<char>, d: char) -> Seq<(Seq<char>, Seq<char>)> {
    split_on_char(rendered, d).drop_last().map_values(|seg: Seq<char>| parse_pair(seg))
}

/// The field sequence as (displayed name, raw value) pairs.
pub open spec fn name_value_pairs(fields: Seq<SpecField>) -> Seq<(Seq<char>, Seq<char>)> {
    fields.map_values(|f: SpecField| (spec_tag_display(f.tag), f.value))
}

proof fn lemma_render_fields_front(fields: Seq<SpecField>, o: SpecOptions)
    requires
        fields.len() > 0,
    ensures
        spec_render_fields(fields, o) == spec_render_field(fields[0], o) + spec_render_fields(
            fields.drop_first(),
            o,
        ),
    decreases fields.len(),
{
    if fields.len() == 1 {
        assert(fields.drop_last() =~= Seq::<SpecField>::empty());
        assert(fields.drop_first() =~= Seq::<SpecField>::empty());
        assert(spec_render_fields(fields, o) =~= spec_render_field(fields[0], o)
            + spec_render_fields(fields.drop_first(), o));
    } else {
        let front = fields.drop_last();
        lemma_render_fields_front(front, o);
        assert(front[0] == fields[0]);
        assert(front.drop_first() =~= fields.drop_first().drop_last());
        assert(fields.drop_first().last() == fields.last());
        assert(spec_render_fields(fields.drop_first(), o) == spec_render_fields(
            fields.drop_first().drop_last(),
            o,
        ) + spec_render_field(fields.last(), o));
        assert(spec_render_fields(fields, o) =~= spec_render_field(fields[0], o)
            + spec_render_fields(fields.drop_first(), o));
    }
}

/// No occurrence of the character `d` in `v`.
pub open spec fn free_of(v: Seq<char>, d: char) -> bool {
    forall|j: int| 0 <= j < v.len() ==> v[j] != d
}

/// Round trip of plain rendering: with colour, strip, value translation and
/// folding all off and a single-character delimiter, splitting the rendered
/// line on the delimiter and on the first `" = "` of each segment recovers
/// exactly the (displayed name, raw value) pairs of the original fields. The
/// delimiter must not be a space or equals sign, and must not occur in any
/// name or value; names must carry no space (true of every table name and of
/// every numeral).
pub proof fn lemma_render_roundtrip(fields: Seq<SpecField>, o: SpecOptions, d: char)
    requires
        !o.colour,
        !o.strip,
        !o.value,
        !o.repeating,
        o.delimiter == seq![d],
        d != ' ',
        d != '=',
        forall|i: int| 0 <= i < fields.len() ==> free_of(#[trigger] fields[i].value, d),
        forall|i: int|
            0 <= i < fields.len() ==> free_of(
                #[trigger] spec_tag_display(fields[i].tag),
                d,
            ) && free_of(spec_tag_display(fields[i].tag), ' '),
    ensures
        reparse_pairs(spec_format(fields, o), d) == name_value_pairs(fields),
    decreases fields.len(),
{
    reveal_strlit(" = ");
    assert(" = "@ =~= seq![' ', '=', ' ']);
    if fields.len() == 0 {
        assert(spec_format(fields, o) == Seq::<char>::empty());
        assert(split_on_char(Seq::<char>::empty(), d) == seq![Seq::<char>::empty()]);
        assert(split_on_char(Seq::<char>::empty(), d).drop_last() =~= Seq::<Seq<char>>::empty());
        assert(reparse_pairs(spec_format(fields, o), d) =~= name_value_pairs(fields));
    } else {
        let f = fields[0];
        let name = spec_tag_display(f.tag);
        let seg = name + seq![' ', '=', ' '] + f.value;
        let rest = fields.drop_first();
        let rendered_rest = spec_render_fields(rest, o);
        lemma_render_fields_front(fields, o);
        assert(spec_render_field(f, o) == name + " = "@ + f.value + seq![d]);
        assert(spec_format(fields, o) =~= seg + seq![d] + rendered_rest);
        assert forall|i: int| 0 <= i < seg.len() implies seg[i] != d by {
            if i < name.len() {
                assert(seg[i] == name[i]);
            } else if i < name.len() + 3 {
                assert(seg[i] == seq![' ', '=', ' '][i - name.len()]);
            } else {
                assert(seg[i] == f.value[i - name.len() - 3]);
            }
        }
        lemma_split_on_concat(seg, rendered_rest, d);
        assert(split_on_char(spec_format(fields, o), d) == seq![seg] + split_on_char(
            rendered_rest,
            d,
        ));
        // The recovered pair of the head segment.
        lemma_first_sep_of_pair(name, f.value);
        assert(seg.take(name.len() as int) =~= name);
        assert(seg.skip(name.len() as int + 3) =~= f.value);
        assert(parse_pair(seg) == (name, f.value));
        // The tail round-trips by induction.
        assert forall|i: int| 0 <= i < rest.len() implies free_of(#[trigger] rest[i].value, d) by {
            assert(rest[i] == fields[i + 1]);
        }
        assert forall|i: int|
            0 <= i < rest.len() implies free_of(#[trigger] spec_tag_display(rest[i].tag), d)
            && free_of(spec_tag_display(rest[i].tag), ' ') by {
            assert(rest[i] == fields[i + 1]);
        }
        assert(spec_format(rest, o) == rendered_rest);
        lemma_render_roundtrip(rest, o, d);
        // Assemble.
        lemma_split_on_char_nonempty(rendered_rest, d);
        let tail_pieces = split_on_char(rendered_rest, d);
        assert((seq![seg] + tail_pieces).drop_last() =~= seq![seg] + tail_pieces.drop_last());
        assert(reparse_pairs(spec_format(fields, o), d) =~= seq![parse_pair(seg)]
            + reparse_pairs(rendered_rest, d));
        assert(name_value_pairs(fields) =~= seq![(name, f.value)] + name_value_pairs(rest));
    }
}

} // verus!
