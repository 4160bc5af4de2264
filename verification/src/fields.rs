//! Fields and field extraction.
//!
//! A field is recognized as a run of digit characters, an equals sign, and one
//! or more characters that are not field delimiters; the delimiter set is
//! `{'^', '|', SOH (0x01)}`. Extraction scans the whole line left to right and
//! opportunistically collects every such run, so unrelated text around an
//! embedded message is tolerated.
use vstd::prelude::*;

use crate::numeral::{digits_val, is_digit};
use crate::strutil::{chars_to_string, str_to_chars};

verus! {

/// One `tag=value` occurrence in a message.
#[derive(Debug, PartialEq, Clone)]
pub struct Field {
    pub tag: usize,
    pub value: String,
}

/// The mathematical model of a `Field`: the tag as an unbounded integer and
/// the value as its character sequence.
#[verifier::ext_equal]
pub ghost struct SpecField {
    pub tag: int,
    pub value: Seq<char>,
}

impl View for Field {
    type V = SpecField;

    open spec fn view(&self) -> SpecField {
        SpecField { tag: self.tag as int, value: self.value@ }
    }
}

impl DeepView for Field {
    type V = SpecField;

    open spec fn deep_view(&self) -> SpecField {
        self.view()
    }
}

/// A line classified by its extracted fields: a full message holds both the
/// begin-string marker (tag 8) and the checksum (tag 10); a partial message is
/// any other non-empty extraction; a line with no fields at all is `NoFields`.
#[derive(Debug, PartialEq)]
pub enum FixMsg {
    Full(Vec<Field>),
    Partial(Vec<Field>),
    NoFields,
}

/// The characters that end a field's value.
pub open spec fn is_delim(c: char) -> bool {
    c == '^' || c == '|' || c == '\x01'
}

/// Length of the longest digit-only prefix.
pub open spec fn leading_digits(s: Seq<char>) -> int
    decreases s.len(),
{
    if s.len() > 0 && is_digit(s[0]) {
        1 + leading_digits(s.drop_first())
    } else {
        0
    }
}

/// Length of the longest delimiter-free prefix.
pub open spec fn leading_value(s: Seq<char>) -> int
    decreases s.len(),
{
    if s.len() > 0 && !is_delim(s[0]) {
        1 + leading_value(s.drop_first())
    } else {
        0
    }
}

pub proof fn lemma_leading_digits_bounds(s: Seq<char>)
    ensures
        0 <= leading_digits(s) <= s.len(),
        forall|j: int| 0 <= j < leading_digits(s) ==> is_digit(#[trigger] s[j]),
        leading_digits(s) < s.len() ==> !is_digit(s[leading_digits(s)]),
    decreases s.len(),
{
    if s.len() > 0 && is_digit(s[0]) {
        lemma_leading_digits_bounds(s.drop_first());
        assert forall|j: int| 0 <= j < leading_digits(s) implies is_digit(#[trigger] s[j]) by {
            if j >= 1 {
                assert(s.drop_first()[j - 1] == s[j]);
            }
        }
        if leading_digits(s) < s.len() {
            assert(s.drop_first()[leading_digits(s) - 1] == s[leading_digits(s)]);
        }
    }
}

pub proof fn lemma_leading_digits_unique(s: Seq<char>, m: int)
    requires
        0 <= m <= s.len(),
        forall|j: int| 0 <= j < m ==> is_digit(#[trigger] s[j]),
        m < s.len() ==> !is_digit(s[m]),
    ensures
        leading_digits(s) == m,
    decreases s.len(),
{
    if s.len() > 0 && is_digit(s[0]) {
        assert(m >= 1);
        lemma_leading_digits_unique(s.drop_first(), m - 1);
    }
}

pub proof fn lemma_leading_value_bounds(s: Seq<char>)
    ensures
        0 <= leading_value(s) <= s.len(),
        forall|j: int| 0 <= j < leading_value(s) ==> !is_delim(#[trigger] s[j]),
        leading_value(s) < s.len() ==> is_delim(s[leading_value(s)]),
    decreases s.len(),
{
    if s.len() > 0 && !is_delim(s[0]) {
        lemma_leading_value_bounds(s.drop_first());
        assert forall|j: int| 0 <= j < leading_value(s) implies !is_delim(#[trigger] s[j]) by {
            if j >= 1 {
                assert(s.drop_first()[j - 1] == s[j]);
            }
        }
        if leading_value(s) < s.len() {
            assert(s.drop_first()[leading_value(s) - 1] == s[leading_value(s)]);
        }
    }
}

pub proof fn lemma_leading_value_unique(s: Seq<char>, m: int)
    requires
        0 <= m <= s.len(),
        forall|j: int| 0 <= j < m ==> !is_delim(#[trigger] s[j]),
        m < s.len() ==> is_delim(s[m]),
    ensures
        leading_value(s) == m,
    decreases s.len(),
{
    if s.len() > 0 && !is_delim(s[0]) {
        assert(m >= 1);
        lemma_leading_value_unique(s.drop_first(), m - 1);
    }
}

/// Whether a field starts exactly at the head of `s`: a digit run, `=`, and at
/// least one value character.
pub open spec fn field_at_head(s: Seq<char>) -> bool {
    &&& s.len() > 0
    &&& is_digit(s[0])
    &&& leading_digits(s) < s.len()
    &&& s[leading_digits(s)] == '='
    &&& leading_digits(s) + 1 < s.len()
    &&& !is_delim(s[leading_digits(s) + 1])
}

/// End of the field at the head of `s` (tag digits, `=`, and the maximal
/// delimiter-free value run).
pub open spec fn field_end(s: Seq<char>) -> int {
    leading_digits(s) + 1 + leading_value(s.skip(leading_digits(s) + 1))
}

/// The field at the head of `s`.
pub open spec fn head_field(s: Seq<char>) -> SpecField {
    SpecField {
        tag: digits_val(s.take(leading_digits(s))),
        value: s.subrange(leading_digits(s) + 1, field_end(s)),
    }
}

/// All fields of a line, in order of occurrence, scanning left to right and
/// taking at each position the leftmost field run.
pub open spec fn spec_extract(s: Seq<char>) -> Seq<SpecField>
    decreases s.len(),
    via spec_extract_decreases
{
    if s.len() == 0 {
        Seq::empty()
    } else if !is_digit(s[0]) {
        spec_extract(s.drop_first())
    } else if field_at_head(s) {
        seq![head_field(s)] + spec_extract(s.skip(field_end(s)))
    } else {
        spec_extract(s.skip(leading_digits(s)))
    }
}

#[via_fn]
proof fn spec_extract_decreases(s: Seq<char>) {
    if s.len() > 0 && is_digit(s[0]) {
        lemma_leading_digits_bounds(s);
        if field_at_head(s) {
            lemma_leading_value_bounds(s.skip(leading_digits(s) + 1));
        }
    }
}

/// Every tag that extraction finds in the line fits in `usize`; a tag too
/// large to parse is treated as a fatal invariant violation, not as a
/// recoverable per-line error.
pub open spec fn tags_in_range(s: Seq<char>) -> bool {
    forall|i: int|
        0 <= i < spec_extract(s).len() ==> #[trigger] spec_extract(s)[i].tag <= usize::MAX
}

/// Whether some extracted field carries the given tag.
pub open spec fn has_tag(fields: Seq<SpecField>, tag: int) -> bool {
    exists|i: int| 0 <= i < fields.len() && #[trigger] fields[i].tag == tag
}

pub fn is_delim_char(c: char) -> (r: bool)
    ensures
        r == is_delim(c),
{
    c == '^' || c == '|' || c == '\x01'
}

pub fn is_digit_char(c: char) -> (r: bool)
    ensures
        r == is_digit(c),
{
    '0' <= c && c <= '9'
}

proof fn lemma_skip_skip(s: Seq<char>, a: int, b: int)
    requires
        0 <= a,
        0 <= b,
        a + b <= s.len(),
    ensures
        s.skip(a).skip(b) =~= s.skip(a + b),
{
}

/// Extracts every field of the line, or reports that some field's tag is too
/// large for `usize`.
pub fn extract_fields(input: &str) -> (r: Option<Vec<Field>>)
    ensures
        r matches Some(v) ==> v.deep_view() == spec_extract(input@) && tags_in_range(input@),
        r is None ==> !tags_in_range(input@),
{
    let chars = str_to_chars(input);
    let n = chars.len();
    let mut out: Vec<Field> = Vec::new();
    let mut i: usize = 0;
    proof {
        assert(chars@.skip(0) =~= chars@);
        assert(out.deep_view() =~= Seq::<SpecField>::empty());
        assert(out.deep_view() + spec_extract(chars@.skip(0)) =~= spec_extract(chars@));
    }
    while i < n
        invariant
            chars@ == input@,
            n == chars@.len(),
            i <= n,
            spec_extract(chars@) == out.deep_view() + spec_extract(chars@.skip(i as int)),
        decreases n - i,
    {
        let ghost suf = chars@.skip(i as int);
        proof {
            assert(suf.len() == n - i);
            assert(forall|k: int| 0 <= k < suf.len() ==> #[trigger] suf[k] == chars@[i + k]);
        }
        if !is_digit_char(chars[i]) {
            proof {
                assert(spec_extract(suf) == spec_extract(suf.drop_first()));
                lemma_skip_skip(chars@, i as int, 1);
                assert(suf.drop_first() =~= chars@.skip(i + 1));
            }
            i = i + 1;
        } else {
            // Scan the digit run starting at i.
            let mut j: usize = i;
            while j < n && is_digit_char(chars[j])
                invariant
                    i <= j <= n,
                    n == chars@.len(),
                    forall|k: int| i <= k < j ==> is_digit(#[trigger] chars@[k]),
                decreases n - j,
            {
                j = j + 1;
            }
            proof {
                assert forall|k: int| 0 <= k < j - i implies is_digit(#[trigger] suf[k]) by {
                    assert(suf[k] == chars@[i + k]);
                }
                if j < n {
                    assert(suf[j - i] == chars@[j as int]);
                }
                lemma_leading_digits_unique(suf, j - i);
            }
            let is_field = j < n && chars[j] == '=' && j + 1 < n && !is_delim_char(chars[j + 1]);
            proof {
                if j < n {
                    assert(suf[j - i] == chars@[j as int]);
                }
                if j + 1 < n {
                    assert(suf[j - i + 1] == chars@[j + 1]);
                }
                assert(is_field == field_at_head(suf));
            }
            if is_field {
                // Scan the value run starting after the '='.
                let mut v: usize = j + 1;
                while v < n && !is_delim_char(chars[v])
                    invariant
                        j + 1 <= v <= n,
                        n == chars@.len(),
                        forall|k: int| j + 1 <= k < v ==> !is_delim(#[trigger] chars@[k]),
                    decreases n - v,
                {
                    v = v + 1;
                }
                let ghost vsuf = chars@.skip(j + 1);
                proof {
                    assert forall|k: int| 0 <= k < v - (j + 1) implies !is_delim(
                        #[trigger] vsuf[k],
                    ) by {
                        assert(vsuf[k] == chars@[j + 1 + k]);
                    }
                    if v < n {
                        assert(vsuf[v - (j + 1)] == chars@[v as int]);
                    }
                    lemma_leading_value_unique(vsuf, v - (j + 1));
                    lemma_skip_skip(chars@, i as int, j - i + 1);
                    assert(suf.skip(j - i + 1) =~= vsuf);
                    assert(field_end(suf) == v - i);
                    assert(spec_extract(suf) == seq![head_field(suf)] + spec_extract(
                        suf.skip(v - i),
                    ));
                    lemma_skip_skip(chars@, i as int, v - i);
                    assert(suf.skip(v - i) =~= chars@.skip(v as int));
                    assert(suf.take(j - i) =~= chars@.subrange(i as int, j as int));
                    assert(head_field(suf).tag == digits_val(chars@.subrange(i as int, j as int)));
                    assert(suf.subrange(j - i + 1, v - i) =~= chars@.subrange(j + 1, v as int));
                    assert(head_field(suf).value == chars@.subrange(j + 1, v as int));
                }
                match crate::numeral::parse_digits_checked(&chars, i, j) {
                    Some(tag) => {
                        let value = chars_to_string(&crate::strutil::subvec_chars(&chars, j + 1, v));
                        let field = Field { tag, value };
                        proof {
                            assert(field@ =~= head_field(suf));
                        }
                        let ghost old_out = out.deep_view();
                        out.push(field);
                        proof {
                            assert(out.deep_view() =~= old_out.push(head_field(suf)));
                            assert(old_out.push(head_field(suf)) + spec_extract(chars@.skip(v as int))
                                =~= old_out + spec_extract(suf));
                        }
                        i = v;
                    },
                    None => {
                        proof {
                            let fs = spec_extract(chars@);
                            assert(fs[out.deep_view().len() as int] == head_field(suf));
                            assert(head_field(suf).tag > usize::MAX);
                            assert(!tags_in_range(chars@));
                        }
                        return Option::None;
                    },
                }
            } else {
                proof {
                    assert(spec_extract(suf) == spec_extract(suf.skip(j - i)));
                    lemma_skip_skip(chars@, i as int, j - i);
                    assert(suf.skip(j - i) =~= chars@.skip(j as int));
                }
                i = j;
            }
        }
    }
    proof {
        assert(chars@.skip(n as int) =~= Seq::<char>::empty());
        assert(spec_extract(chars@.skip(n as int)) =~= Seq::<SpecField>::empty());
        assert(out.deep_view() =~= spec_extract(chars@));
        assert forall|k: int| 0 <= k < spec_extract(input@).len() implies #[trigger] spec_extract(
            input@,
        )[k].tag <= usize::MAX by {
            assert(spec_extract(input@)[k] == out.deep_view()[k]);
            assert(out.deep_view()[k].tag == out@[k].tag as int);
        }
    }
    Some(out)
}

proof fn lemma_has_tag_step(fields: Seq<SpecField>, k: int, tag: int)
    requires
        0 <= k < fields.len(),
    ensures
        has_tag(fields.take(k + 1), tag) == (has_tag(fields.take(k), tag) || fields[k].tag
            == tag),
{
    if fields[k].tag == tag {
        assert(fields.take(k + 1)[k] == fields[k]);
        assert(has_tag(fields.take(k + 1), tag));
    }
    if has_tag(fields.take(k), tag) {
        let i = choose|i: int|
            0 <= i < fields.take(k).len() && #[trigger] fields.take(k)[i].tag == tag;
        assert(fields.take(k + 1)[i] == fields.take(k)[i]);
        assert(has_tag(fields.take(k + 1), tag));
    }
    if has_tag(fields.take(k + 1), tag) && fields[k].tag != tag {
        let i = choose|i: int|
            0 <= i < fields.take(k + 1).len() && #[trigger] fields.take(k + 1)[i].tag == tag;
        assert(i < k);
        assert(fields.take(k)[i] == fields.take(k + 1)[i]);
        assert(has_tag(fields.take(k), tag));
    }
}

/// Whether the field list holds the begin-string marker (tag 8) and the
/// checksum (tag 10).
pub fn scan_begin_checksum(fields: &Vec<Field>) -> (r: (bool, bool))
    ensures
        r.0 == has_tag(fields.deep_view(), 8),
        r.1 == has_tag(fields.deep_view(), 10),
{
    let ghost dv = fields.deep_view();
    let mut has8 = false;
    let mut has10 = false;
    let mut k: usize = 0;
    proof {
        assert(dv.take(0) =~= Seq::<SpecField>::empty());
    }
    while k < fields.len()
        invariant
            k <= fields@.len(),
            dv == fields.deep_view(),
            dv.len() == fields@.len(),
            has8 == has_tag(dv.take(k as int), 8),
            has10 == has_tag(dv.take(k as int), 10),
        decreases fields@.len() - k,
    {
        proof {
            lemma_has_tag_step(dv, k as int, 8);
            lemma_has_tag_step(dv, k as int, 10);
            assert(dv[k as int] == fields.deep_view()[k as int]);
        }
        if fields[k].tag == 8 {
            has8 = true;
        }
        if fields[k].tag == 10 {
            has10 = true;
        }
        k = k + 1;
    }
    proof {
        assert(dv.take(fields@.len() as int) =~= dv);
    }
    (has8, has10)
}

/// Classifies a line by its extracted fields: `Full` when both the
/// begin-string marker (tag 8) and the checksum (tag 10) are present, `Partial`
/// for any other non-empty extraction, `NoFields` when the line holds no field
/// at all.
pub fn parse_fix_msg(input: &str) -> (r: FixMsg)
    requires
        tags_in_range(input@),
    ensures
        ({
            let fs = spec_extract(input@);
            match r {
                FixMsg::Full(v) => v.deep_view() == fs && has_tag(fs, 8) && has_tag(fs, 10),
                FixMsg::Partial(v) => v.deep_view() == fs && fs.len() > 0 && !(has_tag(fs, 8)
                    && has_tag(fs, 10)),
                FixMsg::NoFields => fs.len() == 0,
            }
        }),
{
    let fields = match extract_fields(input) {
        Some(f) => f,
        Option::None => {
            proof {
                assert(false);
            }
            return FixMsg::NoFields;
        },
    };
    let ghost fs = spec_extract(input@);
    if fields.len() == 0 {
        proof {
            assert(fs.len() == fields.deep_view().len());
        }
        return FixMsg::NoFields;
    }
    let (has8, has10) = scan_begin_checksum(&fields);
    proof {
        assert(fs.len() == fields.deep_view().len());
    }
    if has8 && has10 {
        FixMsg::Full(fields)
    } else {
        FixMsg::Partial(fields)
    }
}

} // verus!
