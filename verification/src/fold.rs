//! Repeating-group folding: fields sharing a tag are merged into the first
//! occurrence, whose value becomes the comma-joined values in encounter order.
use vstd::prelude::*;

use crate::fields::{Field, SpecField};

verus! {

/// Index of the first field carrying `tag`, or `fields.len()` when none does.
pub open spec fn index_of_tag(fields: Seq<SpecField>, tag: int) -> int
    decreases fields.len(),
{
    if fields.len() == 0 {
        0
    } else if fields[0].tag == tag {
        0
    } else {
        1 + index_of_tag(fields.drop_first(), tag)
    }
}

pub proof fn lemma_index_of_tag(fields: Seq<SpecField>, tag: int)
    ensures
        0 <= index_of_tag(fields, tag) <= fields.len(),
        index_of_tag(fields, tag) < fields.len() ==> fields[index_of_tag(fields, tag)].tag
            == tag,
        forall|j: int| 0 <= j < index_of_tag(fields, tag) ==> #[trigger] fields[j].tag != tag,
    decreases fields.len(),
{
    if fields.len() > 0 && fields[0].tag != tag {
        lemma_index_of_tag(fields.drop_first(), tag);
        let idx = index_of_tag(fields, tag);
        if idx < fields.len() {
            assert(fields.drop_first()[idx - 1] == fields[idx]);
        }
        assert forall|j: int| 0 <= j < idx implies #[trigger] fields[j].tag != tag by {
            if j >= 1 {
                assert(fields.drop_first()[j - 1] == fields[j]);
            }
        }
    }
}

/// One step of folding: merge `f` into the accumulated fields.
pub open spec fn fold_step(acc: Seq<SpecField>, f: SpecField) -> Seq<SpecField> {
    let idx = index_of_tag(acc, f.tag);
    if idx < acc.len() {
        acc.update(idx, SpecField { tag: f.tag, value: acc[idx].value + seq![','] + f.value })
    } else {
        acc.push(f)
    }
}

/// Folding a whole field sequence, left to right.
pub open spec fn spec_fold(fields: Seq<SpecField>) -> Seq<SpecField>
    decreases fields.len(),
{
    if fields.len() == 0 {
        Seq::empty()
    } else {
        fold_step(spec_fold(fields.drop_last()), fields.last())
    }
}

/// No two fields share a tag.
pub open spec fn distinct_tags(fields: Seq<SpecField>) -> bool {
    forall|i: int, j: int|
        0 <= i < j < fields.len() ==> #[trigger] fields[i].tag != #[trigger] fields[j].tag
}

/// After folding, no tag appears more than once.
pub proof fn lemma_fold_distinct(fields: Seq<SpecField>)
    ensures
        distinct_tags(spec_fold(fields)),
    decreases fields.len(),
{
    if fields.len() > 0 {
        lemma_fold_distinct(fields.drop_last());
        let acc = spec_fold(fields.drop_last());
        let f = fields.last();
        lemma_index_of_tag(acc, f.tag);
        let idx = index_of_tag(acc, f.tag);
        if idx < acc.len() {
            let merged = acc.update(idx, SpecField { tag: f.tag, value: acc[idx].value + seq![','] + f.value });
            assert forall|i: int, j: int| 0 <= i < j < merged.len() implies #[trigger] merged[i].tag
                != #[trigger] merged[j].tag by {
                assert(merged[i].tag == acc[i].tag);
                assert(merged[j].tag == acc[j].tag);
            }
        } else {
            let pushed = acc.push(f);
            assert forall|i: int, j: int| 0 <= i < j < pushed.len() implies #[trigger] pushed[i].tag
                != #[trigger] pushed[j].tag by {
                if j < acc.len() {
                    assert(pushed[i].tag == acc[i].tag);
                    assert(pushed[j].tag == acc[j].tag);
                } else {
                    assert(pushed[i].tag == acc[i].tag);
                    assert(pushed[j] == f);
                    assert(acc[i].tag != f.tag);
                }
            }
        }
    }
}

/// Folding a sequence whose tags are already distinct changes nothing.
pub proof fn lemma_fold_identity(fields: Seq<SpecField>)
    requires
        distinct_tags(fields),
    ensures
        spec_fold(fields) == fields,
    decreases fields.len(),
{
    if fields.len() > 0 {
        assert(distinct_tags(fields.drop_last())) by {
            assert(forall|i: int, j: int|
                0 <= i < j < fields.len() - 1 ==> fields.drop_last()[i] == fields[i]
                    && fields.drop_last()[j] == fields[j]);
        }
        lemma_fold_identity(fields.drop_last());
        let acc = fields.drop_last();
        let f = fields.last();
        lemma_index_of_tag(acc, f.tag);
        let idx = index_of_tag(acc, f.tag);
        if idx < acc.len() {
            assert(acc[idx] == fields[idx]);
            assert(fields[idx].tag != fields[fields.len() - 1].tag);
            assert(false);
        }
        assert(acc.push(f) =~= fields);
    }
}

/// Folding is idempotent: a second pass over an already-folded sequence
/// yields the same sequence.
pub proof fn lemma_fold_idempotent(fields: Seq<SpecField>)
    ensures
        spec_fold(spec_fold(fields)) == spec_fold(fields),
{
    lemma_fold_distinct(fields);
    lemma_fold_identity(spec_fold(fields));
}

/// Merges fields sharing a tag: the first occurrence of each tag keeps its
/// place and collects the later values, comma-separated, in encounter order.
pub fn combine_repeating_groups(input: &Vec<Field>) -> (r: Vec<Field>)
    ensures
        r.deep_view() == spec_fold(input.deep_view()),
{
    let ghost dv = input.deep_view();
    let mut result: Vec<Field> = Vec::new();
    let mut k: usize = 0;
    proof {
        assert(dv.take(0) =~= Seq::<SpecField>::empty());
        assert(result.deep_view() =~= spec_fold(dv.take(0)));
    }
    while k < input.len()
        invariant
            k <= input@.len(),
            dv == input.deep_view(),
            dv.len() == input@.len(),
            result.deep_view() == spec_fold(dv.take(k as int)),
        decreases input@.len() - k,
    {
        let field = &input[k];
        let ghost acc = result.deep_view();
        proof {
            assert(dv.take(k + 1).drop_last() =~= dv.take(k as int));
            assert(dv.take(k + 1).last() == dv[k as int]);
            assert(spec_fold(dv.take(k + 1)) == fold_step(acc, dv[k as int]));
            lemma_index_of_tag(acc, dv[k as int].tag);
        }
        // Find the first earlier field with the same tag, if any.
        let mut j: usize = 0;
        let n = result.len();
        while j < n && result[j].tag != field.tag
            invariant
                j <= n,
                n == result@.len(),
                forall|l: int| 0 <= l < j ==> #[trigger] result.deep_view()[l].tag != field@.tag,
            decreases n - j,
        {
            j = j + 1;
        }
        proof {
            let idx = index_of_tag(acc, dv[k as int].tag);
            assert(field@.tag == dv[k as int].tag);
            if j < n {
                assert(acc[j as int].tag == dv[k as int].tag);
                assert(j as int >= idx || acc[j as int].tag != dv[k as int].tag);
                assert(idx >= j as int || acc[idx].tag != dv[k as int].tag || idx >= acc.len());
                assert(idx == j as int);
            } else {
                assert(forall|l: int| 0 <= l < acc.len() ==> #[trigger] acc[l].tag != dv[k as int].tag);
                assert(idx == acc.len());
            }
        }
        if j < n {
            let mut value = result[j].value.clone();
            value.append(",");
            value.append(field.value.as_str());
            let tag = result[j].tag;
            result.set(j, Field { tag, value });
            proof {
                reveal_strlit(",");
                assert(","@ =~= seq![',']);
                assert(result.deep_view() =~= fold_step(acc, dv[k as int]));
            }
        } else {
            let tag = field.tag;
            let value = field.value.clone();
            result.push(Field { tag, value });
            proof {
                assert(result.deep_view() =~= acc.push(dv[k as int]));
                assert(result.deep_view() =~= fold_step(acc, dv[k as int]));
            }
        }
        k = k + 1;
    }
    proof {
        assert(dv.take(input@.len() as int) =~= dv);
    }
    result
}

} // verus!
