//! How the mathematical value of a vector follows its updates.

use vstd::prelude::*;

verus! {

/// Appending an element appends its value.
pub proof fn lemma_deep_view_push<T: DeepView>(before: Vec<T>, after: Vec<T>, x: T)
    requires
        after@ == before@.push(x),
    ensures
        after.deep_view() == before.deep_view().push(x.deep_view()),
{
    assert(after.deep_view() =~= before.deep_view().push(x.deep_view())) by {
        assert forall|k: int| 0 <= k < after@.len() implies #[trigger] after.deep_view()[k]
            == before.deep_view().push(x.deep_view())[k] by {
            if k < before@.len() {
                assert(after@[k] == before@[k]);
            }
        }
    }
}

/// Inserting an element inserts its value at the same place.
pub proof fn lemma_deep_view_insert<T: DeepView>(before: Vec<T>, after: Vec<T>, at: int, x: T)
    requires
        0 <= at <= before@.len(),
        after@ == before@.insert(at, x),
    ensures
        after.deep_view() == before.deep_view().insert(at, x.deep_view()),
{
    assert(after.deep_view() =~= before.deep_view().insert(at, x.deep_view())) by {
        assert forall|k: int| 0 <= k < after@.len() implies #[trigger] after.deep_view()[k]
            == before.deep_view().insert(at, x.deep_view())[k] by {
            if k < at {
                assert(after@[k] == before@[k]);
            } else if k > at {
                assert(after@[k] == before@[k - 1]);
            }
        }
    }
}

/// A part of a vector has the matching part of its value.
pub proof fn lemma_deep_view_subrange<T: DeepView>(whole: Vec<T>, part: Vec<T>, from: int, to: int)
    requires
        0 <= from <= to <= whole@.len(),
        part@ == whole@.subrange(from, to),
    ensures
        part.deep_view() == whole.deep_view().subrange(from, to),
{
    assert(part.deep_view() =~= whole.deep_view().subrange(from, to)) by {
        assert forall|k: int| 0 <= k < part@.len() implies #[trigger] part.deep_view()[k]
            == whole.deep_view().subrange(from, to)[k] by {
            assert(part@[k] == whole@[from + k]);
        }
    }
}

} // verus!
