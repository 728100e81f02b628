use vstd::prelude::*;
use crate::value::Value;
use crate::value::Val;
use crate::value::deep;
use crate::value::duplicate;
use crate::value::wf_val;

verus! {

/// One environment frame: a mapping from symbol handle to value, plus a
/// parent link fixed at creation time.
pub struct Frame {
    parent: Option<usize>,
    entries: Vec<(usize, Value)>,
}

/// Mathematical image of a frame.
pub struct FrameV {
    pub parent: Option<usize>,
    pub binds: Map<usize, Val>,
}

/// The mapping an entry list stands for: later entries overwrite
/// earlier ones with the same handle.
pub open spec fn entries_map(s: Seq<(usize, Value)>) -> Map<usize, Val>
    decreases s.len(),
{
    if s.len() == 0 {
        Map::empty()
    } else {
        entries_map(s.drop_last()).insert(s.last().0, deep(s.last().1))
    }
}

impl View for Frame {
    type V = FrameV;

    closed spec fn view(&self) -> FrameV {
        FrameV { parent: self.parent, binds: entries_map(self.entries@) }
    }
}

/// The arena of every frame created so far.  A frame's parent always has
/// a smaller index, so parent chains are acyclic; the global frame is
/// frame 0 and every chain ends there.
pub struct Scope {
    frames: Vec<Frame>,
}

impl View for Scope {
    type V = Seq<FrameV>;

    closed spec fn view(&self) -> Seq<FrameV> {
        Seq::new(self.frames@.len(), |i: int| self.frames@[i]@)
    }
}

/// Structural well-formedness of the arena: one global root, and every
/// later frame hangs under an earlier one.
pub open spec fn parents_wf(frames: Seq<FrameV>) -> bool {
    &&& frames.len() > 0
    &&& frames[0].parent is None
    &&& forall|i: int| 1 <= i < frames.len() ==> (#[trigger] frames[i].parent) is Some
    &&& forall|i: int|
        0 <= i < frames.len() ==> ((#[trigger] frames[i].parent) is Some ==> frames[
            i
        ].parent->0 < i)
}

/// Every bound value is well-formed against the given table sizes.
pub open spec fn binds_wf(frames: Seq<FrameV>, nsyms: nat) -> bool {
    forall|i: int, s: usize|
        0 <= i < frames.len() && #[trigger] frames[i].binds.contains_key(s) ==> wf_val(
            frames[i].binds[s],
            nsyms,
            frames.len(),
        )
}

/// Lexical lookup: search the frame, then walk parent links outward.
pub open spec fn lookup_in(frames: Seq<FrameV>, cur: int, sym: usize) -> Option<Val>
    decreases cur,
{
    if 0 <= cur < frames.len() {
        if frames[cur].binds.contains_key(sym) {
            Some(frames[cur].binds[sym])
        } else {
            match frames[cur].parent {
                Some(p) => if p < cur {
                    lookup_in(frames, p as int, sym)
                } else {
                    None
                },
                None => None,
            }
        }
    } else {
        None
    }
}

proof fn lemma_entries_map_absent(s: Seq<(usize, Value)>, sym: usize)
    requires
        forall|j: int| 0 <= j < s.len() ==> (#[trigger] s[j]).0 != sym,
    ensures
        !entries_map(s).contains_key(sym),
    decreases s.len(),
{
    if s.len() > 0 {
        lemma_entries_map_absent(s.drop_last(), sym);
    }
}

proof fn lemma_entries_map_at(s: Seq<(usize, Value)>, sym: usize, i: int)
    requires
        0 <= i < s.len(),
        s[i].0 == sym,
        forall|j: int| i < j < s.len() ==> (#[trigger] s[j]).0 != sym,
    ensures
        entries_map(s).contains_key(sym),
        entries_map(s)[sym] == deep(s[i].1),
    decreases s.len(),
{
    if i == s.len() - 1 {
    } else {
        lemma_entries_map_at(s.drop_last(), sym, i);
    }
}

impl Frame {
    /// Insert or overwrite a binding in this exact frame.
    fn add(&mut self, sym: usize, v: Value)
        ensures
            final(self)@.parent == old(self)@.parent,
            final(self)@.binds == old(self)@.binds.insert(sym, deep(v)),
    {
        self.entries.push((sym, v));
        proof {
            assert(self.entries@.drop_last() =~= old(self).entries@);
        }
    }

    /// The value bound to `sym` in this exact frame, if any.
    fn find(&self, sym: usize) -> (r: Option<Value>)
        ensures
            match r {
                Some(v) => self@.binds.contains_key(sym) && deep(v) == self@.binds[sym],
                None => !self@.binds.contains_key(sym),
            },
    {
        let n = self.entries.len();
        let mut k: usize = n;
        while k > 0
            invariant
                n == self.entries@.len(),
                k <= n,
                forall|j: int| k <= j < n ==> (#[trigger] self.entries@[j]).0 != sym,
            decreases k,
    {
            if self.entries[k - 1].0 == sym {
                proof {
                    lemma_entries_map_at(self.entries@, sym, k - 1);
                }
                return Some(duplicate(&self.entries[k - 1].1));
            }
            k = k - 1;
        }
        proof {
            lemma_entries_map_absent(self.entries@, sym);
        }
        None
    }
}

impl Scope {
    /// A fresh arena holding only the empty global frame.
    pub fn new() -> (r: Scope)
        ensures
            r@ == seq![FrameV { parent: None, binds: Map::<usize, Val>::empty() }],
    {
        let mut frames: Vec<Frame> = Vec::new();
        frames.push(Frame { parent: None, entries: Vec::new() });
        let r = Scope { frames };
        proof {
            assert(r@[0].binds =~= Map::<usize, Val>::empty());
            assert(r@ =~= seq![FrameV { parent: None, binds: Map::<usize, Val>::empty() }]);
        }
        r
    }

    pub open spec fn len_spec(&self) -> nat {
        self@.len()
    }

    pub fn len(&self) -> (n: usize)
        ensures
            n == self.len_spec(),
    {
        self.frames.len()
    }

    /// Create a child frame whose fixed parent is `parent`.
    pub fn new_frame(&mut self, parent: usize) -> (idx: usize)
        requires
            parent < old(self)@.len(),
        ensures
            final(self)@ == old(self)@.push(
                FrameV { parent: Some(parent), binds: Map::<usize, Val>::empty() },
            ),
            idx == old(self)@.len(),
    {
        let idx = self.frames.len();
        self.frames.push(Frame { parent: Some(parent), entries: Vec::new() });
        proof {
            assert(self@[idx as int].binds =~= Map::<usize, Val>::empty());
            assert(self@ =~= old(self)@.push(
                FrameV { parent: Some(parent), binds: Map::<usize, Val>::empty() },
            ));
        }
        idx
    }

    /// Insert or overwrite a binding in frame `frame`; never hoisted to a
    /// parent.
    pub fn add_symbol(&mut self, frame: usize, sym: usize, v: Value)
        requires
            frame < old(self)@.len(),
        ensures
            final(self)@ == old(self)@.update(
                frame as int,
                FrameV {
                    parent: old(self)@[frame as int].parent,
                    binds: old(self)@[frame as int].binds.insert(sym, deep(v)),
                },
            ),
    {
        let f = &mut self.frames[frame];
        f.add(sym, v);
        proof {
            assert(self@ =~= old(self)@.update(
                frame as int,
                FrameV {
                    parent: old(self)@[frame as int].parent,
                    binds: old(self)@[frame as int].binds.insert(sym, deep(v)),
                },
            ));
        }
    }

    /// Search `frame`, then each parent outward; `None` when exhausted.
    pub fn lookup_symbol(&self, frame: usize, sym: usize) -> (r: Option<Value>)
        requires
            parents_wf(self@),
            frame < self@.len(),
        ensures
            match r {
                Some(v) => lookup_in(self@, frame as int, sym) == Some(deep(v)),
                None => lookup_in(self@, frame as int, sym) is None,
            },
    {
        let mut cur = frame;
        loop
            invariant
                parents_wf(self@),
                cur < self@.len(),
                lookup_in(self@, frame as int, sym) == lookup_in(self@, cur as int, sym),
            decreases cur,
        {
            match self.frames[cur].find(sym) {
                Some(v) => {
                    return Some(v);
                },
                None => {
                    let parent = self.frames[cur].parent;
                    match parent {
                        Some(p) => {
                            cur = p;
                        },
                        None => {
                            return None;
                        },
                    }
                },
            }
        }
    }
}

/// A bound value coming out of lookup is as well formed as the arena.
pub proof fn lemma_lookup_wf(frames: Seq<FrameV>, nsyms: nat, cur: int, sym: usize)
    requires
        binds_wf(frames, nsyms),
        lookup_in(frames, cur, sym) is Some,
    ensures
        wf_val(lookup_in(frames, cur, sym)->0, nsyms, frames.len()),
    decreases cur,
{
    if 0 <= cur < frames.len() && !frames[cur].binds.contains_key(sym) {
        match frames[cur].parent {
            Some(p) => {
                if p < cur {
                    lemma_lookup_wf(frames, nsyms, p as int, sym);
                }
            },
            None => {},
        }
    }
}

/// Appending fresh frames never changes what existing frames see.
pub proof fn lemma_lookup_append(frames: Seq<FrameV>, fresh: FrameV, cur: int, sym: usize)
    requires
        0 <= cur < frames.len(),
    ensures
        lookup_in(frames.push(fresh), cur, sym) == lookup_in(frames, cur, sym),
    decreases cur,
{
    match frames[cur].parent {
        Some(p) => {
            if 0 <= p < cur {
                lemma_lookup_append(frames, fresh, p as int, sym);
            }
        },
        None => {},
    }
}

/// Is frame `c` on the parent chain of frame `f` (including `f` itself)?
pub open spec fn on_chain(frames: Seq<FrameV>, f: int, c: int) -> bool
    decreases f,
{
    if 0 <= f < frames.len() {
        f == c || (match frames[f].parent {
            Some(p) => p < f && on_chain(frames, p as int, c),
            None => false,
        })
    } else {
        false
    }
}

/// Changing the bindings of a frame that is not on the chain of `f`
/// changes nothing that `f` sees: a definition made in a child frame is
/// invisible once evaluation has returned to the parent.
pub proof fn lemma_lookup_unrelated_update(
    frames: Seq<FrameV>,
    c: int,
    fr: FrameV,
    f: int,
    sym: usize,
)
    requires
        0 <= f < frames.len(),
        0 <= c < frames.len(),
        !on_chain(frames, f, c),
        fr.parent == frames[c].parent,
    ensures
        lookup_in(frames.update(c, fr), f, sym) == lookup_in(frames, f, sym),
    decreases f,
{
    let updated = frames.update(c, fr);
    assert(f != c);
    assert(updated[f] == frames[f]);
    match frames[f].parent {
        Some(p) => {
            if 0 <= p < f {
                lemma_lookup_unrelated_update(frames, c, fr, p as int, sym);
            }
        },
        None => {},
    }
}

/// Redefining a name in the global frame overrides future lookups from
/// any frame whose chain holds no closer shadow of that name.
pub proof fn lemma_global_redefine_overrides(frames: Seq<FrameV>, f: int, sym: usize, v: Val)
    requires
        parents_wf(frames),
        0 <= f < frames.len(),
        forall|c: int| on_chain(frames, f, c) && c != 0 ==> !(#[trigger] frames[c].binds).contains_key(sym),
    ensures
        lookup_in(
            frames.update(
                0,
                FrameV { parent: frames[0].parent, binds: frames[0].binds.insert(sym, v) },
            ),
            f,
            sym,
        ) == Some(v),
    decreases f,
{
    let fr = FrameV { parent: frames[0].parent, binds: frames[0].binds.insert(sym, v) };
    let updated = frames.update(0, fr);
    if f == 0 {
        assert(updated[0].binds.contains_key(sym));
    } else {
        assert(on_chain(frames, f, f));
        assert(!frames[f].binds.contains_key(sym));
        assert(updated[f] == frames[f]);
        match frames[f].parent {
            Some(p) => {
                assert(on_chain(frames, p as int, p as int));
                lemma_global_redefine_overrides(frames, p as int, sym, v);
            },
            None => {
                assert(false);
            },
        }
    }
}

} // verus!
