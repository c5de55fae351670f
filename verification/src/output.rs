//! What the layout logic reads of an output.

use vstd::prelude::*;

use crate::geometry::Rectangle;
use crate::seqs::{
    first_where, is_first_where, law_the_first_position_comes_first, lemma_first_where_is,
    lemma_first_where_none,
};
use crate::tags::TagId;

verus! {

/// Identifies an output.
pub type OutputKey = u64;

/// Identifies a snapshot of a window.
pub type SnapshotKey = u64;

/// The snapshots that an output holds for its next layout transaction.
#[derive(Debug)]
pub struct OutputSnapshots {
    /// Those of fullscreen windows and of what is above them.
    pub fullscreen_and_above: Vec<SnapshotKey>,
    /// Those of what is under fullscreen windows.
    pub under_fullscreen: Vec<SnapshotKey>,
}

/// The name of an output.
#[derive(Debug)]
pub struct OutputName(pub String);

/// An output, as the compositor last reported it.
#[derive(Debug)]
pub struct Output {
    pub key: OutputKey,
    pub name: String,
    /// The identifiers of the focused tags, in the order of the output's tags.
    pub focused_tags: Vec<TagId>,
    /// The area of the output in the space, if the space knows it.
    pub geometry: Option<Rectangle>,
    /// The area that layer surfaces leave free, relative to the output.
    pub non_exclusive_zone: Rectangle,
    /// Whether a layout transaction is under way.
    pub layout_transaction: bool,
    pub snapshots: OutputSnapshots,
}

/// Holds of the outputs with the name `name`.
pub open spec fn named(name: Seq<char>) -> spec_fn(Output) -> bool {
    |o: Output| o.name@ == name
}

/// The position of the output named `name`: the first one, if there are several.
pub open spec fn output_named(outputs: Seq<Output>, name: Seq<char>) -> Option<int> {
    first_where(outputs, named(name))
}

impl OutputName {
    /// Looks the name up among `outputs`.
    pub fn output(&self, outputs: &Vec<Output>) -> (r: Option<usize>)
        ensures
            match r {
                Some(i) => i < outputs.len() && output_named(outputs@, self.0@) == Some(i as int),
                None => output_named(outputs@, self.0@) is None,
            },
    {
        let mut i: usize = 0;
        while i < outputs.len()
            invariant
                i <= outputs.len(),
                forall|j: int| 0 <= j < i ==> !named(self.0@)(#[trigger] outputs@[j]),
            decreases outputs.len() - i,
        {
            if outputs[i].name == self.0 {
                proof {
                    assert(is_first_where(outputs@, named(self.0@), i as int));
                    lemma_first_where_is(outputs@, named(self.0@), i as int);
                }
                return Some(i);
            }
            i = i + 1;
        }
        proof {
            lemma_first_where_none(outputs@, named(self.0@));
        }
        None
    }
}

/// A name stands for the first output that has it, and for none where no output does.
pub proof fn law_a_name_stands_for_the_first_output(outputs: Seq<Output>, name: Seq<char>)
    ensures
        match output_named(outputs, name) {
            Some(i) => 0 <= i < outputs.len() && outputs[i].name@ == name && forall|j: int|
                0 <= j < i ==> (#[trigger] outputs[j]).name@ != name,
            None => forall|j: int|
                0 <= j < outputs.len() ==> (#[trigger] outputs[j]).name@ != name,
        },
{
    law_the_first_position_comes_first(outputs, named(name));
    match output_named(outputs, name) {
        Some(i) => {
            assert forall|j: int| 0 <= j < i implies (#[trigger] outputs[j]).name@ != name by {
                assert(!named(name)(outputs[j]));
            }
        },
        None => {
            assert forall|j: int| 0 <= j < outputs.len() implies (#[trigger] outputs[j]).name@
                != name by {
                assert(!named(name)(outputs[j]));
            }
        },
    }
}

} // verus!
