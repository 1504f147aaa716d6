//! The dependency walk's decisions: the visited-path set that bounds
//! the walk, the queue built from the level's three sources, and the
//! dispatch of each unique path by its file kind.

use vstd::prelude::*;
use vstd::string::*;
use crate::kv::PropTable;
use crate::paths::ext_of;
use crate::text::str_eq;

verus! {

/// The set of paths already queued or copied in one run, in first-seen
/// order.
pub struct Visited {
    paths: Vec<String>,
}

impl View for Visited {
    type V = Seq<Seq<char>>;

    closed spec fn view(&self) -> Seq<Seq<char>> {
        self.paths.deep_view()
    }
}

impl Visited {
    /// An empty set.
    pub fn new() -> (r: Visited)
        ensures
            r@ == Seq::<Seq<char>>::empty(),
    {
        let r = Visited { paths: Vec::new() };
        proof {
            assert(r@ =~= Seq::<Seq<char>>::empty());
        }
        r
    }

    /// Whether `p` has been seen.
    pub fn contains(&self, p: &str) -> (r: bool)
        ensures
            r == self@.contains(p@),
    {
        let n = self.paths.len();
        let mut i: usize = 0;
        while i < n
            invariant
                n == self.paths@.len(),
                self@.len() == n,
                i <= n,
                forall|j: int| 0 <= j < i ==> self@[j] != p@,
            decreases n - i,
        {
            proof {
                assert(self@[i as int] =~= self.paths@[i as int]@);
            }
            if str_eq(self.paths[i].as_str(), p) {
                assert(self@[i as int] == p@);
                return true;
            }
            i = i + 1;
        }
        false
    }

    /// Marks `p` seen. The path is accepted — and the set grows by it —
    /// exactly when it was not seen before; the set never shrinks.
    pub fn insert(self, p: String) -> (r: (Visited, bool))
        ensures
            r.1 == !self@.contains(p@),
            r.1 ==> r.0@ == self@.push(p@),
            !r.1 ==> r.0@ == self@,
            self@.is_prefix_of(r.0@),
    {
        let ghost old_view = self@;
        if self.contains(p.as_str()) {
            proof {
                assert(old_view.is_prefix_of(old_view));
            }
            (self, false)
        } else {
            let Visited { mut paths } = self;
            let ghost pv = p@;
            paths.push(p);
            let r = Visited { paths };
            proof {
                assert(r@ =~= old_view.push(pv));
                assert(r@.subrange(0, old_view.len() as int) =~= old_view);
            }
            (r, true)
        }
    }
}

/// Law: a path accepted into the visited set stays in it however the
/// set has grown since, so a later insert of the same path is never
/// accepted again — each path is processed at most once, and a cycle
/// of chained material descriptors cannot be walked twice.
pub proof fn lemma_visited_once(v1: Seq<Seq<char>>, v2: Seq<Seq<char>>, p: Seq<char>)
    requires
        v1.contains(p),
        v1.is_prefix_of(v2),
    ensures
        v2.contains(p),
{
    let i = choose|i: int| 0 <= i < v1.len() && v1[i] == p;
    assert(v2.subrange(0, v1.len() as int)[i] == p);
    assert(v2[i] == p);
}

/// The reference that key `k` of an entity record contributes: its
/// value, when the key is bound.
pub open spec fn opt_ref(m: Map<Seq<char>, Seq<char>>, k: Seq<char>) -> Seq<Seq<char>> {
    if m.contains_key(k) {
        seq![m[k]]
    } else {
        Seq::empty()
    }
}

/// The model reference of an entity record: its `model` value, unless
/// the key is unbound, the value is empty, or the value begins with
/// `*` — an in-engine submodel reference, never a file.
pub open spec fn model_ref(m: Map<Seq<char>, Seq<char>>) -> Seq<Seq<char>> {
    if m.contains_key("model"@) && m["model"@].len() > 0 && m["model"@][0] != '*' {
        seq![m["model"@]]
    } else {
        Seq::empty()
    }
}

/// Everything one entity record contributes to the queue: its
/// `message`, `noise1` and `noise2` values, then its model reference.
pub open spec fn entity_refs(m: Map<Seq<char>, Seq<char>>) -> Seq<Seq<char>> {
    opt_ref(m, "message"@) + opt_ref(m, "noise1"@) + opt_ref(m, "noise2"@) + model_ref(m)
}

/// Law: a model reference that begins with `*` contributes nothing:
/// the record queues only its message and noise references, so such a
/// reference can never reach a read or a copy.
pub proof fn lemma_star_model_never_queued(m: Map<Seq<char>, Seq<char>>)
    requires
        m.contains_key("model"@),
        m["model"@].len() > 0,
        m["model"@][0] == '*',
    ensures
        entity_refs(m) == opt_ref(m, "message"@) + opt_ref(m, "noise1"@) + opt_ref(m, "noise2"@),
        !entity_refs(m).contains(m["model"@]) || opt_ref(m, "message"@).contains(m["model"@])
            || opt_ref(m, "noise1"@).contains(m["model"@]) || opt_ref(m, "noise2"@).contains(
            m["model"@],
        ),
{
    assert(model_ref(m) =~= Seq::<Seq<char>>::empty());
    assert(entity_refs(m) =~= opt_ref(m, "message"@) + opt_ref(m, "noise1"@) + opt_ref(
        m,
        "noise2"@,
    ));
    if entity_refs(m).contains(m["model"@]) {
        let v = m["model"@];
        let refs = entity_refs(m);
        let i = choose|i: int| 0 <= i < refs.len() && refs[i] == v;
        let a = opt_ref(m, "message"@);
        let b = opt_ref(m, "noise1"@);
        let c = opt_ref(m, "noise2"@);
        if i < a.len() {
            assert(a[i] == v);
        } else if i < a.len() + b.len() {
            assert(b[i - a.len()] == v);
        } else {
            assert(c[i - a.len() - b.len()] == v);
        }
    }
}

/// The views of a list of entity records.
pub open spec fn ents_maps(ts: Seq<PropTable>) -> Seq<Map<Seq<char>, Seq<char>>> {
    ts.map_values(|t: PropTable| t@)
}

/// The queue contributed by a list of entity records, record by
/// record.
pub open spec fn entity_queue(ms: Seq<Map<Seq<char>, Seq<char>>>) -> Seq<Seq<char>>
    decreases ms.len(),
{
    if ms.len() == 0 {
        Seq::empty()
    } else {
        entity_queue(ms.drop_last()) + entity_refs(ms.last())
    }
}

/// Everything one entity record contributes to the queue, as
/// `entity_refs` states it.
pub fn entity_refs_of(t: &PropTable) -> (r: Vec<String>)
    ensures
        r.deep_view() == entity_refs(t@),
{
    let mut r: Vec<String> = Vec::new();
    match t.get("message") {
        Some(v) => { r.push(v.clone()) },
        None => {},
    }
    proof {
        assert(r.deep_view() =~= opt_ref(t@, "message"@));
    }
    match t.get("noise1") {
        Some(v) => { r.push(v.clone()) },
        None => {},
    }
    proof {
        assert(r.deep_view() =~= opt_ref(t@, "message"@) + opt_ref(t@, "noise1"@));
    }
    match t.get("noise2") {
        Some(v) => { r.push(v.clone()) },
        None => {},
    }
    proof {
        assert(r.deep_view() =~= opt_ref(t@, "message"@) + opt_ref(t@, "noise1"@) + opt_ref(
            t@,
            "noise2"@,
        ));
    }
    match t.get("model") {
        Some(v) => {
            if !v.as_str().is_empty() && v.as_str().get_char(0) != '*' {
                r.push(v.clone());
            }
        },
        None => {},
    }
    proof {
        assert(r.deep_view() =~= entity_refs(t@));
    }
    r
}

/// The full raw queue of the level: every entity record's references,
/// then every static-prop model name, then every embedded material
/// name, in that order.
pub fn collect_paths(
    entities: &Vec<PropTable>,
    prop_statics: &Vec<String>,
    material_names: &Vec<String>,
) -> (r: Vec<String>)
    ensures
        r.deep_view() == entity_queue(ents_maps(entities@)) + prop_statics.deep_view()
            + material_names.deep_view(),
{
    let mut r: Vec<String> = Vec::new();
    let n = entities.len();
    let mut i: usize = 0;
    while i < n
        invariant
            n == entities@.len(),
            i <= n,
            r.deep_view() == entity_queue(ents_maps(entities@.take(i as int))),
        decreases n - i,
    {
        let ghost old_r = r.deep_view();
        let mut row = entity_refs_of(&entities[i]);
        let ghost rowv = row.deep_view();
        r.append(&mut row);
        proof {
            let ms = ents_maps(entities@.take(i + 1));
            assert(ms.drop_last() =~= ents_maps(entities@.take(i as int)));
            assert(ms.last() == entities@[i as int]@);
            assert(r.deep_view() =~= old_r + rowv);
        }
        i = i + 1;
    }
    proof {
        assert(entities@.take(n as int) =~= entities@);
    }
    let m1 = prop_statics.len();
    let mut j: usize = 0;
    while j < m1
        invariant
            m1 == prop_statics@.len(),
            prop_statics.deep_view().len() == m1,
            j <= m1,
            r.deep_view() == entity_queue(ents_maps(entities@)) + prop_statics.deep_view().take(
                j as int,
            ),
        decreases m1 - j,
    {
        let ghost old_r = r.deep_view();
        r.push(prop_statics[j].clone());
        proof {
            let pd = prop_statics.deep_view();
            assert(r.deep_view() =~= old_r + seq![pd[j as int]]);
            assert(entity_queue(ents_maps(entities@)) + pd.take(j + 1) =~= (entity_queue(
                ents_maps(entities@),
            ) + pd.take(j as int)) + seq![pd[j as int]]);
        }
        j = j + 1;
    }
    proof {
        assert(prop_statics.deep_view().take(m1 as int) =~= prop_statics.deep_view());
    }
    let m2 = material_names.len();
    let mut k: usize = 0;
    while k < m2
        invariant
            m2 == material_names@.len(),
            material_names.deep_view().len() == m2,
            k <= m2,
            r.deep_view() == entity_queue(ents_maps(entities@)) + prop_statics.deep_view()
                + material_names.deep_view().take(k as int),
        decreases m2 - k,
    {
        let ghost old_r = r.deep_view();
        r.push(material_names[k].clone());
        proof {
            let md = material_names.deep_view();
            assert(r.deep_view() =~= old_r + seq![md[k as int]]);
            assert((entity_queue(ents_maps(entities@)) + prop_statics.deep_view()) + md.take(
                k + 1,
            ) =~= ((entity_queue(ents_maps(entities@)) + prop_statics.deep_view()) + md.take(
                k as int,
            )) + seq![md[k as int]]);
        }
        k = k + 1;
    }
    proof {
        assert(material_names.deep_view().take(m2 as int) =~= material_names.deep_view());
    }
    r
}

/// The queue with every already-seen path dropped: what remains, in
/// first-seen order, when the paths are offered left to right to a
/// visited set that starts as `v`.
pub open spec fn dedup_keep(v: Seq<Seq<char>>, ps: Seq<Seq<char>>) -> Seq<Seq<char>>
    decreases ps.len(),
{
    if ps.len() == 0 {
        Seq::empty()
    } else if v.contains(ps.first()) {
        dedup_keep(v, ps.drop_first())
    } else {
        seq![ps.first()] + dedup_keep(v.push(ps.first()), ps.drop_first())
    }
}

/// The visited set after the paths have been offered left to right.
pub open spec fn dedup_visited(v: Seq<Seq<char>>, ps: Seq<Seq<char>>) -> Seq<Seq<char>>
    decreases ps.len(),
{
    if ps.len() == 0 {
        v
    } else if v.contains(ps.first()) {
        dedup_visited(v, ps.drop_first())
    } else {
        dedup_visited(v.push(ps.first()), ps.drop_first())
    }
}

proof fn lemma_push_contains(v: Seq<Seq<char>>, x: Seq<char>, y: Seq<char>)
    ensures
        v.push(x).contains(y) <==> (v.contains(y) || y == x),
{
    if v.push(x).contains(y) {
        let i = choose|i: int| 0 <= i < v.push(x).len() && v.push(x)[i] == y;
        if i < v.len() {
            assert(v[i] == y);
        }
    }
    if v.contains(y) {
        let i = choose|i: int| 0 <= i < v.len() && v[i] == y;
        assert(v.push(x)[i] == y);
    }
    if y == x {
        assert(v.push(x)[v.len() as int] == y);
    }
}

/// Law: the deduplicated queue holds pairwise distinct paths, none of
/// them seen before the run: re-encountering a path enqueues it no
/// second time.
pub proof fn lemma_dedup_unique(v: Seq<Seq<char>>, ps: Seq<Seq<char>>)
    ensures
        forall|i: int, j: int|
            #![trigger dedup_keep(v, ps)[i], dedup_keep(v, ps)[j]]
            0 <= i < j < dedup_keep(v, ps).len() ==> dedup_keep(v, ps)[i] != dedup_keep(v, ps)[j],
        forall|i: int|
            0 <= i < dedup_keep(v, ps).len() ==> !v.contains(#[trigger] dedup_keep(v, ps)[i]),
    decreases ps.len(),
{
    if ps.len() == 0 {
        assert(dedup_keep(v, ps) == Seq::<Seq<char>>::empty());
    } else {
        let first = ps.first();
        if v.contains(first) {
            lemma_dedup_unique(v, ps.drop_first());
            let out = dedup_keep(v, ps);
            let tail = dedup_keep(v, ps.drop_first());
            assert(out == tail);
            assert forall|i: int| 0 <= i < out.len() implies !v.contains(#[trigger] out[i]) by {
                assert(out[i] == tail[i]);
            }
            assert forall|i: int, j: int|
                #![trigger out[i], out[j]]
                0 <= i < j < out.len() implies out[i] != out[j] by {
                assert(out[i] == tail[i]);
                assert(out[j] == tail[j]);
            }
        } else {
            lemma_dedup_unique(v.push(first), ps.drop_first());
            let out = dedup_keep(v, ps);
            let tail = dedup_keep(v.push(first), ps.drop_first());
            assert(out == seq![first] + tail);
            assert forall|i: int| 0 <= i < out.len() implies !v.contains(
                #[trigger] out[i],
            ) by {
                if i > 0 {
                    assert(out[i] == tail[i - 1]);
                    assert(!v.push(first).contains(tail[i - 1]));
                    lemma_push_contains(v, first, tail[i - 1]);
                }
            }
            assert forall|i: int, j: int|
                #![trigger out[i], out[j]]
                0 <= i < j < out.len() implies out[i] != out[j] by {
                if i == 0 {
                    assert(out[j] == tail[j - 1]);
                    assert(!v.push(first).contains(tail[j - 1]));
                    lemma_push_contains(v, first, tail[j - 1]);
                } else {
                    assert(out[i] == tail[i - 1]);
                    assert(out[j] == tail[j - 1]);
                }
            }
        }
    }
}

/// Law: no fresh path is lost: every queued path that the run has not
/// seen comes out of the deduplication. With `lemma_dedup_unique`, a
/// queued path is kept exactly once.
pub proof fn lemma_dedup_complete(v: Seq<Seq<char>>, ps: Seq<Seq<char>>, p: Seq<char>)
    requires
        ps.contains(p),
        !v.contains(p),
    ensures
        dedup_keep(v, ps).contains(p),
    decreases ps.len(),
{
    let first = ps.first();
    let rest = ps.drop_first();
    if v.contains(first) {
        assert(p != first);
        assert(rest.contains(p)) by {
            let i = choose|i: int| 0 <= i < ps.len() && ps[i] == p;
            assert(rest[i - 1] == p);
        }
        lemma_dedup_complete(v, rest, p);
    } else {
        let out = dedup_keep(v, ps);
        let tail = dedup_keep(v.push(first), rest);
        if p == first {
            assert(out[0] == p);
        } else {
            assert(rest.contains(p)) by {
                let i = choose|i: int| 0 <= i < ps.len() && ps[i] == p;
                assert(rest[i - 1] == p);
            }
            lemma_push_contains(v, first, p);
            lemma_dedup_complete(v.push(first), rest, p);
            let j = choose|j: int| 0 <= j < tail.len() && tail[j] == p;
            assert(out[j + 1] == p);
        }
    }
}

/// Offers every path to the visited set, in order: the paths not seen
/// before come back, each exactly once, in first-seen order; a path
/// already seen is silently dropped.
pub fn dedup_paths(paths: &Vec<String>, visited: Visited) -> (r: (Vec<String>, Visited))
    ensures
        r.0.deep_view() == dedup_keep(visited@, paths.deep_view()),
        r.1@ == dedup_visited(visited@, paths.deep_view()),
{
    let ghost v0 = visited@;
    let ghost pd = paths.deep_view();
    let mut out: Vec<String> = Vec::new();
    let mut vis = visited;
    let n = paths.len();
    let mut i: usize = 0;
    proof {
        assert(pd.skip(0) =~= pd);
        assert(out.deep_view() =~= Seq::<Seq<char>>::empty());
        assert(Seq::<Seq<char>>::empty() + dedup_keep(v0, pd) =~= dedup_keep(v0, pd));
    }
    while i < n
        invariant
            n == paths@.len(),
            pd == paths.deep_view(),
            pd.len() == n,
            i <= n,
            out.deep_view() + dedup_keep(vis@, pd.skip(i as int)) == dedup_keep(v0, pd),
            dedup_visited(vis@, pd.skip(i as int)) == dedup_visited(v0, pd),
        decreases n - i,
    {
        let ghost old_out = out.deep_view();
        let ghost old_vis = vis@;
        proof {
            assert(pd.skip(i as int).first() == pd[i as int]);
            assert(pd.skip(i as int).drop_first() =~= pd.skip(i + 1));
            assert(pd[i as int] == paths@[i as int]@);
        }
        let p = paths[i].clone();
        let (v2, added) = vis.insert(p);
        vis = v2;
        if added {
            out.push(paths[i].clone());
            proof {
                assert(out.deep_view() =~= old_out + seq![pd[i as int]]);
                assert((old_out + seq![pd[i as int]]) + dedup_keep(vis@, pd.skip(i + 1))
                    =~= old_out + (seq![pd[i as int]] + dedup_keep(vis@, pd.skip(i + 1))));
            }
        }
        i = i + 1;
    }
    proof {
        assert(pd.skip(n as int) =~= Seq::<Seq<char>>::empty());
        assert(out.deep_view() + Seq::<Seq<char>>::empty() =~= out.deep_view());
    }
    (out, vis)
}

/// What the dispatch does with one path, decided by its extension.
#[derive(Debug, Clone, Copy, PartialEq, Eq, Structural)]
pub enum RefKind {
    /// A material descriptor: parse it, copy it and its bitmaps.
    Material,
    /// A model container: decode it and walk its candidate materials.
    Model,
    /// An audio file: copy it from the sound root.
    Sound,
    /// Anything else: ignored.
    Other,
}

/// The dispatch decision for a path: by its extension.
pub open spec fn spec_classify(p: Seq<char>) -> RefKind {
    match ext_of(p) {
        Option::None => RefKind::Other,
        Option::Some(e) => {
            if e == "vmt"@ {
                RefKind::Material
            } else if e == "mdl"@ {
                RefKind::Model
            } else if e == "mp3"@ || e == "wav"@ || e == "ogg"@ {
                RefKind::Sound
            } else {
                RefKind::Other
            }
        },
    }
}

/// Decides what the dispatch does with `p`, as `spec_classify` states
/// it.
pub fn classify(p: &str) -> (r: RefKind)
    ensures
        r == spec_classify(p@),
{
    let e = match crate::paths::path_ext(p) {
        Some(e) => e,
        None => {
            return RefKind::Other;
        },
    };
    if str_eq(e.as_str(), "vmt") {
        RefKind::Material
    } else if str_eq(e.as_str(), "mdl") {
        RefKind::Model
    } else if str_eq(e.as_str(), "mp3") || str_eq(e.as_str(), "wav") || str_eq(e.as_str(), "ogg") {
        RefKind::Sound
    } else {
        RefKind::Other
    }
}

} // verus!
