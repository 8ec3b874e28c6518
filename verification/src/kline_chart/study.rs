//! Studies that a chart shows on top of its data, at most one of each kind.
use crate::heatmap::overlay::ProfileKind;
use vstd::prelude::*;

verus! {

/// A study over the footprints of a kline chart.
#[derive(Debug, Clone, Copy, PartialEq, Eq, Structural)]
pub enum FootprintStudy {
    /// Points of control that the price has not come back to, among the last `lookback` bars.
    NPoC { lookback: usize },
    /// Levels at which one side traded much more than the other.
    Imbalance { threshold: u32, color_scale: Option<u32>, ignore_zeros: bool },
}

/// A study over the heatmap.
#[derive(Debug, Clone, Copy, PartialEq, Eq, Structural)]
pub enum HeatmapStudy {
    VolumeProfile(ProfileKind),
}

/// A study that has a kind.
pub trait Study: Copy {
    /// The number of the study's kind.
    spec fn spec_kind(&self) -> u8;

    /// The number of the study's kind.
    fn kind(&self) -> (k: u8)
        ensures
            k == self.spec_kind(),
    ;
}

impl Study for FootprintStudy {
    open spec fn spec_kind(&self) -> u8 {
        match self {
            FootprintStudy::NPoC { .. } => 0,
            FootprintStudy::Imbalance { .. } => 1,
        }
    }

    fn kind(&self) -> (k: u8) {
        match self {
            FootprintStudy::NPoC { .. } => 0,
            FootprintStudy::Imbalance { .. } => 1,
        }
    }
}

impl Study for HeatmapStudy {
    open spec fn spec_kind(&self) -> u8 {
        0
    }

    fn kind(&self) -> (k: u8) {
        0
    }
}

/// One of the studies is of kind `kind`.
pub open spec fn has_kind<S: Study>(studies: Seq<S>, kind: u8) -> bool {
    exists|i: int| 0 <= i < studies.len() && (#[trigger] studies[i]).spec_kind() == kind
}

/// The studies that are not of kind `kind`, in order.
pub open spec fn without_kind<S: Study>(studies: Seq<S>, kind: u8) -> Seq<S>
    decreases studies.len(),
{
    if studies.len() == 0 {
        Seq::empty()
    } else if studies.last().spec_kind() == kind {
        without_kind(studies.drop_last(), kind)
    } else {
        without_kind(studies.drop_last(), kind).push(studies.last())
    }
}

/// The place of the first study of kind `kind`.
pub open spec fn is_first_of_kind<S: Study>(studies: Seq<S>, kind: u8, i: int) -> bool {
    &&& 0 <= i < studies.len()
    &&& studies[i].spec_kind() == kind
    &&& forall|j: int| 0 <= j < i ==> (#[trigger] studies[j]).spec_kind() != kind
}

fn find_kind<S: Study>(studies: &Vec<S>, kind: u8) -> (r: Option<usize>)
    ensures
        match r {
            Some(i) => is_first_of_kind(studies@, kind, i as int),
            None => !has_kind(studies@, kind),
        },
{
    let mut i: usize = 0;
    while i < studies.len()
        invariant
            i <= studies@.len(),
            forall|j: int| 0 <= j < i ==> (#[trigger] studies@[j]).spec_kind() != kind,
        decreases studies@.len() - i,
    {
        if studies[i].kind() == kind {
            return Some(i);
        }
        i += 1;
    }
    None
}

/// Switches a study on, unless one of its kind is on, or all of its kind off. Returns whether that
/// changed anything.
pub fn toggle_study<S: Study>(studies: &mut Vec<S>, study: S, selected: bool) -> (changed: bool)
    ensures
        selected ==> final(studies)@ == (if has_kind(old(studies)@, study.spec_kind()) {
            old(studies)@
        } else {
            old(studies)@.push(study)
        }),
        !selected ==> final(studies)@ == without_kind(old(studies)@, study.spec_kind()),
        changed == (has_kind(old(studies)@, study.spec_kind()) != selected),
{
    let kind: u8 = study.kind();
    if selected {
        match find_kind(studies, kind) {
            Some(_) => false,
            None => {
                studies.push(study);
                true
            },
        }
    } else {
        let found: bool = match find_kind(studies, kind) {
            Some(_) => true,
            None => false,
        };
        let mut kept: Vec<S> = Vec::new();
        let n: usize = studies.len();
        let mut i: usize = 0;
        assert(studies@.take(0) =~= Seq::<S>::empty());
        while i < n
            invariant
                i <= n,
                n == studies@.len(),
                kept@ == without_kind(studies@.take(i as int), kind),
            decreases n - i,
        {
            proof {
                assert(studies@.take(i + 1).drop_last() =~= studies@.take(i as int));
                assert(studies@.take(i + 1).last() == studies@[i as int]);
            }
            let s: S = studies[i];
            if s.kind() != kind {
                kept.push(s);
            }
            i += 1;
        }
        proof {
            assert(studies@.take(n as int) =~= studies@);
        }
        *studies = kept;
        found
    }
}

/// Replaces the study of the same kind, if there is one, and returns whether there was.
pub fn configure_study<S: Study>(studies: &mut Vec<S>, study: S) -> (changed: bool)
    ensures
        changed == has_kind(old(studies)@, study.spec_kind()),
        !changed ==> final(studies)@ == old(studies)@,
        changed ==> exists|i: int| #[trigger]
            is_first_of_kind(old(studies)@, study.spec_kind(), i) && final(studies)@ == old(
                studies,
            )@.update(i, study),
{
    match find_kind(studies, study.kind()) {
        Some(i) => {
            proof {
                assert(is_first_of_kind(studies@, study.spec_kind(), i as int));
            }
            studies.set(i, study);
            true
        },
        None => false,
    }
}

/// How far back the study of points of control looks, if it is on.
pub open spec fn spec_npoc_lookback(studies: Seq<FootprintStudy>) -> Option<usize>
    decreases studies.len(),
{
    if studies.len() == 0 {
        None
    } else {
        match studies.first() {
            FootprintStudy::NPoC { lookback } => Some(lookback),
            _ => spec_npoc_lookback(studies.drop_first()),
        }
    }
}

/// How far back the study of points of control looks, if it is on.
pub fn npoc_lookback(studies: &Vec<FootprintStudy>) -> (r: Option<usize>)
    ensures
        r == spec_npoc_lookback(studies@),
{
    let n: usize = studies.len();
    let mut i: usize = 0;
    assert(studies@.skip(0) =~= studies@);
    while i < n
        invariant
            i <= n,
            n == studies@.len(),
            spec_npoc_lookback(studies@) == spec_npoc_lookback(studies@.skip(i as int)),
        decreases n - i,
    {
        proof {
            assert(studies@.skip(i as int).drop_first() =~= studies@.skip(i + 1));
        }
        match studies[i] {
            FootprintStudy::NPoC { lookback } => {
                return Some(lookback);
            },
            _ => {},
        }
        i += 1;
    }
    None
}

/// The settings of the study of imbalances.
#[derive(Debug, Clone, Copy, PartialEq, Eq, Structural)]
pub struct ImbalanceStudy {
    /// By how many percent one side has to exceed the other.
    pub threshold: u32,
    pub color_scale: Option<u32>,
    pub ignore_zeros: bool,
}

/// The settings of the study of imbalances, if it is on.
pub open spec fn spec_imbalance_study(studies: Seq<FootprintStudy>) -> Option<ImbalanceStudy>
    decreases studies.len(),
{
    if studies.len() == 0 {
        None
    } else {
        match studies.first() {
            FootprintStudy::Imbalance { threshold, color_scale, ignore_zeros } => Some(
                ImbalanceStudy { threshold, color_scale, ignore_zeros },
            ),
            _ => spec_imbalance_study(studies.drop_first()),
        }
    }
}

/// The settings of the study of imbalances, if it is on.
pub fn imbalance_study(studies: &Vec<FootprintStudy>) -> (r: Option<ImbalanceStudy>)
    ensures
        r == spec_imbalance_study(studies@),
{
    let n: usize = studies.len();
    let mut i: usize = 0;
    assert(studies@.skip(0) =~= studies@);
    while i < n
        invariant
            i <= n,
            n == studies@.len(),
            spec_imbalance_study(studies@) == spec_imbalance_study(studies@.skip(i as int)),
        decreases n - i,
    {
        proof {
            assert(studies@.skip(i as int).drop_first() =~= studies@.skip(i + 1));
        }
        match studies[i] {
            FootprintStudy::Imbalance { threshold, color_scale, ignore_zeros } => {
                return Some(ImbalanceStudy { threshold, color_scale, ignore_zeros });
            },
            _ => {},
        }
        i += 1;
    }
    None
}

/// No two studies are of the same kind.
pub open spec fn one_of_each<S: Study>(studies: Seq<S>) -> bool {
    forall|i: int, j: int|
        0 <= i < j < studies.len() ==> (#[trigger] studies[i]).spec_kind() != (
        #[trigger] studies[j]).spec_kind()
}

proof fn lemma_without_kind<S: Study>(studies: Seq<S>, kind: u8)
    ensures
        !has_kind(without_kind(studies, kind), kind),
        forall|k: u8| has_kind(without_kind(studies, kind), k) ==> has_kind(studies, k),
        one_of_each(studies) ==> one_of_each(without_kind(studies, kind)),
    decreases studies.len(),
{
    if studies.len() > 0 {
        let front = studies.drop_last();
        lemma_without_kind(front, kind);
        let before = without_kind(front, kind);
        let after = without_kind(studies, kind);
        if one_of_each(studies) {
            assert forall|i: int, j: int| 0 <= i < j < front.len() implies (
            #[trigger] front[i]).spec_kind() != (#[trigger] front[j]).spec_kind() by {
                assert(studies[i].spec_kind() != studies[j].spec_kind());
            }
        }
        assert forall|k: u8| has_kind(after, k) implies has_kind(studies, k) && k != kind by {
            let i = choose|i: int| 0 <= i < after.len() && (#[trigger] after[i]).spec_kind() == k;
            if i < before.len() {
                assert(before[i] == after[i]);
                assert(has_kind(before, k));
                assert(has_kind(front, k));
                let j = choose|j: int|
                    0 <= j < front.len() && (#[trigger] front[j]).spec_kind() == k;
                assert(studies[j] == front[j]);
            } else {
                assert(studies[studies.len() - 1].spec_kind() == k);
            }
        }
        if one_of_each(studies) && studies.last().spec_kind() != kind {
            assert forall|i: int, j: int| 0 <= i < j < after.len() implies (
            #[trigger] after[i]).spec_kind() != (#[trigger] after[j]).spec_kind() by {
                assert(after[i] == before[i]);
                if j < before.len() {
                    assert(after[j] == before[j]);
                } else {
                    let k = before[i].spec_kind();
                    assert(has_kind(before, k));
                    assert(has_kind(front, k));
                    let m = choose|m: int|
                        0 <= m < front.len() && (#[trigger] front[m]).spec_kind() == k;
                    assert(studies[m] == front[m]);
                    assert(studies[m].spec_kind() != studies[studies.len() - 1].spec_kind());
                }
            }
        }
    }
}

/// Switching studies on and off keeps at most one of each kind, and afterwards the kind is on
/// exactly where it was switched on.
pub proof fn toggling_keeps_one_of_each<S: Study>(studies: Seq<S>, study: S)
    requires
        one_of_each(studies),
    ensures
        !has_kind(studies, study.spec_kind()) ==> one_of_each(studies.push(study)) && has_kind(
            studies.push(study),
            study.spec_kind(),
        ),
        one_of_each(without_kind(studies, study.spec_kind())),
        !has_kind(without_kind(studies, study.spec_kind()), study.spec_kind()),
{
    lemma_without_kind(studies, study.spec_kind());
    let after = studies.push(study);
    assert(after[studies.len() as int] == study);
    if !has_kind(studies, study.spec_kind()) {
        assert forall|i: int, j: int| 0 <= i < j < after.len() implies (
        #[trigger] after[i]).spec_kind() != (#[trigger] after[j]).spec_kind() by {
            assert(after[i] == studies[i]);
            if j < studies.len() {
                assert(after[j] == studies[j]);
            }
        }
    }
}

} // verus!
