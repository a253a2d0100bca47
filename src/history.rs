use vstd::prelude::*;
use ahash::AHashMap;
use crate::grid::Grid;

verus! {

#[verifier::external_type_specification]
#[verifier::external_body]
#[verifier::reject_recursive_types(K)]
#[verifier::reject_recursive_types(V)]
#[verifier::reject_recursive_types(S)]
pub struct ExAHashMap<K, V, S>(AHashMap<K, V, S>);

#[verifier::external_type_specification]
#[verifier::external_body]
pub struct ExRandomState(ahash::RandomState);

/// A grid's width and its cells in row-major order.
pub type Fingerprint = (usize, Seq<bool>);

/// The entries of a map from fingerprints to generations.
pub uninterp spec fn map_entries(m: AHashMap<(usize, Vec<bool>), usize>) -> Map<Fingerprint, usize>;

/// Relies on AHashMap::new: a new map holds no entry.
#[verifier::external_body]
fn map_new() -> (r: AHashMap<(usize, Vec<bool>), usize>)
    ensures
        map_entries(r).is_empty(),
{
    AHashMap::new()
}

/// Relies on AHashMap::get: the value stored under `k`, if there is one.
#[verifier::external_body]
fn map_get(m: &AHashMap<(usize, Vec<bool>), usize>, k: &(usize, Vec<bool>)) -> (r: Option<usize>)
    ensures
        map_entries(*m).contains_key((k.0, k.1@)) ==> r == Some(map_entries(*m)[(k.0, k.1@)]),
        !map_entries(*m).contains_key((k.0, k.1@)) ==> r.is_none(),
{
    m.get(k).copied()
}

/// Relies on AHashMap::insert: afterwards `k` maps to `v` and every other
/// entry is as it was.
#[verifier::external_body]
fn map_insert(m: &mut AHashMap<(usize, Vec<bool>), usize>, k: (usize, Vec<bool>), v: usize)
    ensures
        map_entries(*final(m)) == map_entries(*old(m)).insert((k.0, k.1@), v),
{
    m.insert(k, v);
}

/// The generation at which each fingerprint was first seen.
pub struct History {
    map: AHashMap<(usize, Vec<bool>), usize>,
}

/// One step of cycle detection: a fingerprint not yet recorded is stored
/// with `generation` and no cycle is reported; a recorded one leaves the
/// history as it is and reports the generation it was first seen at.
pub open spec fn classify(h: Map<Fingerprint, usize>, fp: Fingerprint, generation: usize) -> (
    Map<Fingerprint, usize>,
    Option<usize>,
) {
    if h.contains_key(fp) {
        (h, Some(h[fp]))
    } else {
        (h.insert(fp, generation), None)
    }
}

/// The history after classifying `fps[0]`, `fps[1]`, ... in turn, each at
/// the generation equal to its position.
pub open spec fn history_of(fps: Seq<Fingerprint>) -> Map<Fingerprint, usize>
    decreases fps.len(),
{
    if fps.len() == 0 {
        Map::empty()
    } else {
        classify(history_of(fps.drop_last()), fps.last(), (fps.len() - 1) as usize).0
    }
}

/// Whether position `k` holds the first occurrence of `fp` in `fps`.
pub open spec fn first_occurrence(fps: Seq<Fingerprint>, fp: Fingerprint, k: int) -> bool {
    &&& 0 <= k < fps.len()
    &&& fps[k] == fp
    &&& forall|j: int| 0 <= j < k ==> fps[j] != fp
}

proof fn lemma_history_of(fps: Seq<Fingerprint>)
    requires
        fps.len() <= usize::MAX + 1,
    ensures
        forall|fp: Fingerprint|
            #[trigger] history_of(fps).contains_key(fp) <==> exists|j: int| 0 <= j < fps.len() && fps[j] == fp,
        forall|fp: Fingerprint|
            #[trigger] history_of(fps).contains_key(fp) ==> first_occurrence(fps, fp, history_of(fps)[fp] as int),
    decreases fps.len(),
{
    if fps.len() > 0 {
        let pre = fps.drop_last();
        lemma_history_of(pre);
        assert forall|fp: Fingerprint|
            #[trigger] history_of(fps).contains_key(fp) <==> exists|j: int| 0 <= j < fps.len() && fps[j] == fp by {
            if exists|j: int| 0 <= j < fps.len() && fps[j] == fp {
                let j = choose|j: int| 0 <= j < fps.len() && fps[j] == fp;
                if j < pre.len() {
                    assert(pre[j] == fp);
                }
            }
            if history_of(pre).contains_key(fp) {
                let j = choose|j: int| 0 <= j < pre.len() && pre[j] == fp;
                assert(fps[j] == fp);
            }
        }
        assert forall|fp: Fingerprint|
            #[trigger] history_of(fps).contains_key(fp) implies first_occurrence(fps, fp, history_of(fps)[fp] as int) by {
            if history_of(pre).contains_key(fp) {
                let k = history_of(pre)[fp] as int;
                assert(first_occurrence(pre, fp, k));
                assert forall|j: int| 0 <= j < k implies fps[j] != fp by {
                    assert(pre[j] == fps[j]);
                }
            } else {
                assert forall|j: int| 0 <= j < fps.len() - 1 implies fps[j] != fp by {
                    assert(pre[j] == fps[j]);
                }
            }
        }
    }
}

/// Classifying generation after generation reports no cycle at the first
/// occurrence of a fingerprint, and at every later occurrence, however many
/// other generations came between, the generation of the first one.
pub proof fn lemma_classify_reports_first(fps: Seq<Fingerprint>, i: int)
    requires
        0 <= i < fps.len(),
        fps.len() <= usize::MAX,
    ensures
        (forall|j: int| 0 <= j < i ==> fps[j] != fps[i])
            ==> classify(history_of(fps.take(i)), fps[i], i as usize).1 == None::<usize>,
        (exists|j: int| 0 <= j < i && fps[j] == fps[i]) ==> {
            let r = classify(history_of(fps.take(i)), fps[i], i as usize).1;
            r.is_some() && first_occurrence(fps, fps[i], r.unwrap() as int)
        },
{
    let pre = fps.take(i);
    lemma_history_of(pre);
    if forall|j: int| 0 <= j < i ==> fps[j] != fps[i] {
        if history_of(pre).contains_key(fps[i]) {
            let j = choose|j: int| 0 <= j < pre.len() && pre[j] == fps[i];
            assert(fps[j] == fps[i]);
        }
    }
    if exists|j: int| 0 <= j < i && fps[j] == fps[i] {
        let j = choose|j: int| 0 <= j < i && fps[j] == fps[i];
        assert(pre[j] == fps[i]);
        let k = history_of(pre)[fps[i]] as int;
        assert(first_occurrence(pre, fps[i], k));
        assert forall|m: int| 0 <= m < k implies fps[m] != fps[i] by {
            assert(pre[m] == fps[m]);
        }
    }
}

impl History {
    pub closed spec fn entries(&self) -> Map<Fingerprint, usize> {
        map_entries(self.map)
    }

    /// An empty history.
    pub fn new() -> (h: History)
        ensures
            h.entries().is_empty(),
            h.entries().dom().finite(),
    {
        History { map: map_new() }
    }
}

/// Records the fingerprint of `board` as seen at `generation`, unless it was
/// seen before, in which case the generation of its first occurrence is
/// returned and the history is left unchanged.
pub fn detect_loop(board: &Grid, generation: usize, history: &mut History) -> (r: Option<usize>)
    requires
        board.wf(),
        old(history).entries().dom().finite(),
    ensures
        (final(history).entries(), r) == classify(old(history).entries(), board.key(), generation),
        final(history).entries().dom().finite(),
{
    let fp = board.fingerprint();
    match map_get(&history.map, &fp) {
        Some(first) => Some(first),
        None => {
            map_insert(&mut history.map, fp, generation);
            None
        },
    }
}

} // verus!
