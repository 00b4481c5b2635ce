//! The decisions of the packaging operation: how wide the labels of its
//! progress lines are, whether a directory can be loaded as a modlet, and
//! whether to package at all once every modlet has been tried.

use vstd::prelude::*;

verus! {

/// Why a directory was not loaded as a modlet.
#[derive(Debug, Clone, Copy, PartialEq, Eq, Structural)]
pub enum LoadError {
    /// The directory has no `config` directory in it.
    InvalidModlet,
}

/// What to do once every modlet has been tried.
#[derive(Debug, Clone, Copy, PartialEq, Eq, Structural)]
pub enum Decision {
    /// Every modlet was loaded: package them.
    Package,
    /// Some modlets failed to load: package nothing, and report how many.
    Skip { failed: usize },
}

/// The largest of the lengths, or `floor` where that is larger.
pub open spec fn widest(lengths: Seq<usize>, floor: usize) -> usize
    decreases lengths.len(),
{
    if lengths.len() == 0 {
        floor
    } else {
        let before = widest(lengths.drop_last(), floor);
        if lengths.last() > before {
            lengths.last()
        } else {
            before
        }
    }
}

/// `widest` is at least the floor and every length, and it is one of them.
pub proof fn lemma_widest(lengths: Seq<usize>, floor: usize)
    ensures
        widest(lengths, floor) >= floor,
        forall|i: int| 0 <= i < lengths.len() ==> widest(lengths, floor) >= lengths[i],
        widest(lengths, floor) == floor || lengths.contains(widest(lengths, floor)),
    decreases lengths.len(),
{
    if lengths.len() != 0 {
        let init = lengths.drop_last();
        lemma_widest(init, floor);
        assert forall|i: int| 0 <= i < lengths.len() implies widest(lengths, floor)
            >= lengths[i] by {
            if i < init.len() {
                assert(init[i] == lengths[i]);
            }
        }
        if widest(lengths, floor) != floor {
            if lengths.last() > widest(init, floor) {
                assert(lengths[lengths.len() - 1] == widest(lengths, floor));
            } else {
                let j = choose|j: int| 0 <= j < init.len() && init[j] == widest(init, floor);
                assert(lengths[j] == widest(lengths, floor));
            }
        }
    }
}

/// The width of the labels: the length of the longest modlet name, and at
/// least the length of the name of the modlet that is packaged into.
pub fn label_width(name_lengths: &Vec<usize>, target_length: usize) -> (width: usize)
    ensures
        width == widest(name_lengths@, target_length),
        width >= target_length,
        forall|i: int| 0 <= i < name_lengths.len() ==> width >= name_lengths@[i],
        width == target_length || name_lengths@.contains(width),
{
    proof {
        lemma_widest(name_lengths@, target_length);
    }
    let mut width = target_length;
    let mut i: usize = 0;
    while i < name_lengths.len()
        invariant
            i <= name_lengths.len(),
            width == widest(name_lengths@.take(i as int), target_length),
        decreases name_lengths.len() - i,
    {
        let ghost upto = name_lengths@.take(i as int + 1);
        assert(upto.drop_last() =~= name_lengths@.take(i as int));
        if name_lengths[i] > width {
            width = name_lengths[i];
        }
        i += 1;
    }
    assert(name_lengths@.take(name_lengths.len() as int) =~= name_lengths@);
    width
}

/// Whether a directory can be loaded as a modlet, given what was found at
/// its `config` path: it must exist and be a directory.
pub fn check_layout(config_exists: bool, config_is_directory: bool) -> (outcome: Result<
    (),
    LoadError,
>)
    ensures
        outcome is Ok <==> config_exists && config_is_directory,
        outcome is Err ==> outcome == Err::<(), LoadError>(LoadError::InvalidModlet),
{
    if config_exists && config_is_directory {
        Ok(())
    } else {
        Err(LoadError::InvalidModlet)
    }
}

/// Whether to package: only where every modlet that was asked for was
/// loaded. Otherwise nothing is packaged, and the number of modlets that
/// failed is reported.
pub fn decide(requested: usize, loaded: usize) -> (decision: Decision)
    requires
        loaded <= requested,
    ensures
        decision == if loaded == requested {
            Decision::Package
        } else {
            (Decision::Skip { failed: (requested - loaded) as usize })
        },
{
    if loaded == requested {
        Decision::Package
    } else {
        Decision::Skip { failed: requested - loaded }
    }
}

} // verus!
