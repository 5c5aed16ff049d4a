//! Grouping of model instances into draw batches: after the instances are
//! ordered by render model, every run of equal render models is drawn with one
//! instanced draw call.
use vstd::prelude::*;

verus! {

/// One draw call: the render model and the range of instances drawn with it.
#[derive(Debug)]
pub struct Batch {
    pub render_model: usize,
    pub range: core::ops::Range<u32>,
}

/// Bit of an instance that is highlighted.
pub const HIGHLIGHTED: u32 = 1;
/// Bit of an instance drawn with its own pose rather than the model's nodes.
pub const CUSTOM_POSE: u32 = 2;

/// `batches` cuts `keys` into maximal runs of equal keys, in order.
pub open spec fn batches_of(keys: Seq<usize>, batches: Seq<Batch>) -> bool {
    &&& (batches.len() == 0 <==> keys.len() == 0)
    &&& batches.len() > 0 ==> batches[0].range.start == 0
    &&& batches.len() > 0 ==> batches.last().range.end == keys.len()
    &&& forall|i: int| 0 <= i < batches.len() - 1 ==> #[trigger] batches[i].range.end == batches[i + 1].range.start
    &&& forall|i: int| 0 <= i < batches.len() - 1 ==> #[trigger] batches[i].render_model != batches[i + 1].render_model
    &&& forall|i: int| 0 <= i < batches.len() ==> (#[trigger] batches[i]).range.start < batches[i].range.end
    &&& forall|i: int, j: int| 0 <= i < batches.len() && batches[i].range.start <= j < batches[i].range.end
        ==> #[trigger] keys[j] == #[trigger] batches[i].render_model
}

/// Cut the instances' render models into runs of equal models.
pub fn build_batches(keys: &Vec<usize>) -> (r: Vec<Batch>)
    requires
        keys@.len() <= u32::MAX,
    ensures
        batches_of(keys@, r@),
{
    let mut batches: Vec<Batch> = Vec::new();
    let mut start_index: usize = 0;
    let count = keys.len();
    while start_index < count
        invariant
            count == keys@.len() <= u32::MAX,
            start_index <= count,
            batches_of(keys@.subrange(0, start_index as int), batches@),
            batches@.len() > 0 ==> keys@[start_index - 1] == batches@.last().render_model,
            batches@.len() > 0 && start_index < count ==> keys@[start_index as int] != batches@.last().render_model,
            forall|i: int| 0 <= i < batches@.len() ==> (#[trigger] batches@[i]).range.end <= start_index,
        decreases count - start_index,
    {
        let render_model = keys[start_index];
        let mut end_index = start_index + 1;
        while end_index < count && keys[end_index] == render_model
            invariant
                count == keys@.len(),
                start_index < end_index <= count,
                forall|j: int| start_index <= j < end_index ==> keys@[j] == render_model,
            decreases count - end_index,
        {
            end_index += 1;
        }
        let ghost before = batches@;
        batches.push(Batch { render_model, range: (start_index as u32)..(end_index as u32) });
        proof {
            let ks = keys@.subrange(0, end_index as int);
            assert forall|i: int, j: int| 0 <= i < batches@.len() && batches@[i].range.start <= j < batches@[i].range.end
                implies #[trigger] ks[j] == #[trigger] batches@[i].render_model by {
                if i < before.len() {
                    assert(keys@.subrange(0, start_index as int)[j] == keys@[j]);
                }
            }
        }
        start_index = end_index;
    }
    assert(keys@.subrange(0, count as int) =~= keys@);
    batches
}

} // verus!
