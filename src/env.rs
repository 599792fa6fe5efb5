//! Nested symbol and type environments. Each is a stack of frames, the
//! global frame first; a name's slot in its frame indexes its type in the
//! matching frame of the type table.
use vstd::prelude::*;

use crate::ast::{lemma_types_view, types_view, Type, TypeV};
use crate::error::{ErrorKind, ParserError};

verus! {

/// Names by frame.
pub struct SymTab {
    frames: Vec<Vec<String>>,
}

/// Types by frame, slot for slot with a [`SymTab`].
pub struct TypeTab {
    frames: Vec<Vec<Type>>,
}

impl View for SymTab {
    type V = Seq<Seq<Seq<char>>>;

    closed spec fn view(&self) -> Seq<Seq<Seq<char>>> {
        Seq::new(self.frames.len() as nat, |f: int| Seq::new(self.frames@[f].len() as nat, |k: int| self.frames@[f]@[k]@))
    }
}

impl View for TypeTab {
    type V = Seq<Seq<TypeV>>;

    closed spec fn view(&self) -> Seq<Seq<TypeV>> {
        Seq::new(self.frames.len() as nat, |f: int| types_view(self.frames@[f]@))
    }
}

/// The first slot of `frame` that holds `n`.
pub open spec fn frame_find(frame: Seq<Seq<char>>, n: Seq<char>) -> Option<int>
    decreases frame.len(),
{
    if frame.len() == 0 {
        None
    } else {
        match frame_find(frame.subrange(0, frame.len() - 1), n) {
            Some(k) => Some(k),
            None => if frame.last() == n {
                Some(frame.len() - 1)
            } else {
                None
            },
        }
    }
}

/// Looks `n` up in the frames below `m`, innermost first: its slot, and how
/// many frames out from the innermost one it was found.
pub open spec fn lookup_below(fs: Seq<Seq<Seq<char>>>, n: Seq<char>, m: int) -> Option<(int, int)>
    decreases m,
{
    if m <= 0 {
        None
    } else {
        match frame_find(fs[m - 1], n) {
            Some(k) => Some((k, fs.len() - m)),
            None => lookup_below(fs, n, m - 1),
        }
    }
}

/// Looks `n` up, innermost frame first.
pub open spec fn lookup(fs: Seq<Seq<Seq<char>>>, n: Seq<char>) -> Option<(int, int)> {
    lookup_below(fs, n, fs.len() as int)
}

/// The type recorded for `n`, if `n` is bound.
pub open spec fn type_of(fs: Seq<Seq<Seq<char>>>, ts: Seq<Seq<TypeV>>, n: Seq<char>) -> Option<TypeV> {
    match lookup(fs, n) {
        Some((k, d)) => Some(ts[ts.len() - 1 - d][k]),
        None => None,
    }
}

/// Two tables that match frame for frame and slot for slot, with a global
/// frame.
pub open spec fn env_wf(fs: Seq<Seq<Seq<char>>>, ts: Seq<Seq<TypeV>>) -> bool {
    &&& fs.len() >= 1
    &&& fs.len() == ts.len()
    &&& forall|f: int| 0 <= f < fs.len() ==> #[trigger] fs[f].len() == ts[f].len()
}

/// Binds `n` in the innermost frame to `t`: the slot that already holds `n`
/// is reused, else a slot is added.
pub open spec fn bind(fs: Seq<Seq<Seq<char>>>, ts: Seq<Seq<TypeV>>, n: Seq<char>, t: TypeV) -> (Seq<Seq<Seq<char>>>, Seq<Seq<TypeV>>) {
    let last = fs.len() - 1;
    match frame_find(fs[last], n) {
        Some(k) => (fs, ts.update(last, ts[last].update(k, t))),
        None => (fs.update(last, fs[last].push(n)), ts.update(last, ts[last].push(t))),
    }
}

pub proof fn lemma_lookup_found(fs: Seq<Seq<Seq<char>>>, n: Seq<char>, m: int)
    requires
        0 <= m <= fs.len(),
    ensures
        lookup_below(fs, n, m) matches Some((k, d)) ==> 0 <= d < fs.len() && fs.len() - 1 - d < m
            && 0 <= k < fs[fs.len() - 1 - d].len() && fs[fs.len() - 1 - d][k] == n,
    decreases m,
{
    if m > 0 {
        lemma_frame_find(fs[m - 1], n);
        lemma_lookup_found(fs, n, m - 1);
    }
}

pub proof fn lemma_frame_find(frame: Seq<Seq<char>>, n: Seq<char>)
    ensures
        frame_find(frame, n) matches Some(k) ==> 0 <= k < frame.len() && frame[k] == n,
        frame_find(frame, n) is None ==> forall|k: int| 0 <= k < frame.len() ==> frame[k] != n,
    decreases frame.len(),
{
    if frame.len() > 0 {
        let init = frame.subrange(0, frame.len() - 1);
        lemma_frame_find(init, n);
        assert forall|k: int| 0 <= k < frame.len() - 1 implies frame[k] == init[k] by {}
    }
}

fn find_in(frame: &Vec<String>, n: &String) -> (r: Option<usize>)
    ensures
        r matches Some(k) ==> frame_find(Seq::new(frame.len() as nat, |j: int| frame@[j]@), n@) == Some(k as int),
        r is None ==> frame_find(Seq::new(frame.len() as nat, |j: int| frame@[j]@), n@) is None,
{
    let ghost fv = Seq::new(frame.len() as nat, |j: int| frame@[j]@);
    let mut i: usize = 0;
    while i < frame.len()
        invariant
            i <= frame.len(),
            fv == Seq::new(frame.len() as nat, |j: int| frame@[j]@),
            frame_find(fv.subrange(0, i as int), n@) is None,
        decreases frame.len() - i,
    {
        let ghost pre = fv.subrange(0, i as int);
        let ghost next = fv.subrange(0, i + 1);
        assert(next.subrange(0, i as int) =~= pre);
        if frame[i] == *n {
            proof {
                lemma_frame_find_prefix(fv, n@, i as int);
            }
            return Some(i);
        }
        i = i + 1;
    }
    assert(fv.subrange(0, frame.len() as int) =~= fv);
    None
}

proof fn lemma_frame_find_prefix(fv: Seq<Seq<char>>, n: Seq<char>, i: int)
    requires
        0 <= i < fv.len(),
        frame_find(fv.subrange(0, i), n) is None,
        fv[i] == n,
    ensures
        frame_find(fv, n) == Some(i),
    decreases fv.len(),
{
    if fv.len() - 1 == i {
        assert(fv.subrange(0, fv.len() - 1) =~= fv.subrange(0, i));
    } else {
        let init = fv.subrange(0, fv.len() - 1);
        assert(init.subrange(0, i) =~= fv.subrange(0, i));
        lemma_frame_find_prefix(init, n, i);
    }
}

impl SymTab {
    /// A table with one empty global frame.
    pub fn new_global() -> (r: SymTab)
        ensures
            r@ == seq![Seq::<Seq<char>>::empty()],
    {
        let mut frames: Vec<Vec<String>> = Vec::new();
        frames.push(Vec::new());
        let r = SymTab { frames };
        assert(r@[0] =~= Seq::<Seq<char>>::empty());
        assert(r@ =~= seq![Seq::<Seq<char>>::empty()]);
        r
    }

    /// The slot and frame distance of `name`, innermost frame first.
    pub fn get_name(&self, name: &String) -> (r: Option<(usize, usize)>)
        ensures
            r matches Some((k, d)) ==> lookup(self@, name@) == Some((k as int, d as int)),
            r is None ==> lookup(self@, name@) is None,
    {
        let ghost fs = self@;
        let mut m: usize = self.frames.len();
        while m > 0
            invariant
                m <= self.frames.len(),
                fs == self@,
                lookup_below(fs, name@, m as int) == lookup(fs, name@),
            decreases m,
        {
            assert(fs[m - 1] =~= Seq::new(self.frames@[m - 1].len() as nat, |j: int| self.frames@[m - 1]@[j]@));
            match find_in(&self.frames[m - 1], name) {
                Some(k) => {
                    return Some((k, self.frames.len() - m));
                },
                None => {},
            }
            m = m - 1;
        }
        None
    }

    /// The slot that `name` holds in the innermost frame, if any.
    pub fn find_local(&self, name: &String) -> (r: Option<usize>)
        requires
            self@.len() >= 1,
        ensures
            r matches Some(k) ==> frame_find(self@.last(), name@) == Some(k as int),
            r is None ==> frame_find(self@.last(), name@) is None,
    {
        let last = self.frames.len() - 1;
        assert(self@.last() =~= Seq::new(self.frames@[last as int].len() as nat, |j: int| self.frames@[last as int]@[j]@));
        find_in(&self.frames[last], name)
    }

    /// Binds `name` in the innermost frame and gives its slot: the slot it
    /// already holds there, or a new last slot.
    pub fn add_name(&mut self, name: &String) -> (r: usize)
        requires
            old(self)@.len() >= 1,
        ensures
            r as int == match frame_find(old(self)@.last(), name@) {
                Some(k) => k,
                None => old(self)@.last().len() as int,
            },
            final(self)@ == match frame_find(old(self)@.last(), name@) {
                Some(_) => old(self)@,
                None => old(self)@.update(old(self)@.len() - 1, old(self)@.last().push(name@)),
            },
    {
        match self.find_local(name) {
            Some(k) => k,
            None => {
                let last = self.frames.len() - 1;
                let mut frame = Vec::new();
                std::mem::swap(&mut frame, &mut self.frames[last]);
                let k = frame.len();
                frame.push(name.clone());
                std::mem::swap(&mut frame, &mut self.frames[last]);
                let ghost want = old(self)@.update(old(self)@.len() - 1, old(self)@.last().push(name@));
                assert forall|f: int| 0 <= f < self@.len() implies #[trigger] self@[f] =~= want[f] by {}
                assert(self@ =~= want);
                k
            },
        }
    }

    /// Opens a child frame holding `names`.
    pub fn push_frame(&mut self, names: &Vec<String>)
        ensures
            final(self)@ == old(self)@.push(Seq::new(names.len() as nat, |j: int| names@[j]@)),
    {
        let mut frame: Vec<String> = Vec::new();
        let mut i: usize = 0;
        while i < names.len()
            invariant
                i <= names.len(),
                frame.len() == i,
                forall|j: int| 0 <= j < i ==> #[trigger] frame@[j]@ == names@[j]@,
            decreases names.len() - i,
        {
            frame.push(names[i].clone());
            i = i + 1;
        }
        self.frames.push(frame);
        let ghost want = old(self)@.push(Seq::new(names.len() as nat, |j: int| names@[j]@));
        assert forall|f: int| 0 <= f < self@.len() implies #[trigger] self@[f] =~= want[f] by {}
        assert(self@ =~= want);
    }

    /// Closes the innermost frame.
    pub fn pop_frame(&mut self)
        requires
            old(self)@.len() >= 1,
        ensures
            final(self)@ == old(self)@.subrange(0, old(self)@.len() - 1),
    {
        self.frames.pop();
        let ghost want = old(self)@.subrange(0, old(self)@.len() - 1);
        assert forall|f: int| 0 <= f < self@.len() implies #[trigger] self@[f] =~= want[f] by {}
        assert(self@ =~= want);
    }
}

impl TypeTab {
    /// A table with one empty global frame.
    pub fn new_global() -> (r: TypeTab)
        ensures
            r@ == seq![Seq::<TypeV>::empty()],
    {
        let mut frames: Vec<Vec<Type>> = Vec::new();
        frames.push(Vec::new());
        let r = TypeTab { frames };
        assert(types_view(Seq::<Type>::empty()) =~= Seq::<TypeV>::empty());
        assert(r@ =~= seq![Seq::<TypeV>::empty()]);
        r
    }

    /// The number of slots in the innermost frame.
    pub fn size(&self) -> (r: usize)
        requires
            self@.len() >= 1,
        ensures
            r == self@.last().len(),
    {
        proof {
            lemma_types_view(self.frames@[self.frames.len() - 1]@);
        }
        self.frames[self.frames.len() - 1].len()
    }

    /// The type in slot `i` of the frame `d` frames out from the innermost.
    pub fn get_type(&self, i: usize, d: usize) -> (r: Result<Type, ParserError>)
        ensures
            r is Ok <==> (d < self@.len() && i < self@[self@.len() - 1 - d].len()),
            r matches Ok(t) ==> t@ == self@[self@.len() - 1 - d][i as int],
            r matches Err(e) ==> e.kind == ErrorKind::UnknownIdentifier,
    {
        if d >= self.frames.len() {
            return Err(ParserError::new(ErrorKind::UnknownIdentifier, "no such frame"));
        }
        let f = self.frames.len() - 1 - d;
        proof {
            lemma_types_view(self.frames@[f as int]@);
        }
        if i >= self.frames[f].len() {
            return Err(ParserError::new(ErrorKind::UnknownIdentifier, "no such slot"));
        }
        Ok(self.frames[f][i].copy())
    }

    /// Records `t` in slot `i` of the innermost frame, adding the slot when
    /// `i` is one past the last.
    pub fn set_type(&mut self, i: usize, t: Type)
        requires
            old(self)@.len() >= 1,
            i <= old(self)@.last().len(),
        ensures
            final(self)@ == old(self)@.update(
                old(self)@.len() - 1,
                if i < old(self)@.last().len() {
                    old(self)@.last().update(i as int, t@)
                } else {
                    old(self)@.last().push(t@)
                },
            ),
    {
        let last = self.frames.len() - 1;
        let ghost tv = t@;
        let mut frame = Vec::new();
        std::mem::swap(&mut frame, &mut self.frames[last]);
        let ghost before = frame@;
        proof {
            lemma_types_view(before);
        }
        if i < frame.len() {
            frame.set(i, t);
        } else {
            frame.push(t);
        }
        proof {
            lemma_types_view(frame@);
            if i < before.len() {
                assert(types_view(frame@) =~= types_view(before).update(i as int, tv));
            } else {
                assert(types_view(frame@) =~= types_view(before).push(tv));
            }
        }
        std::mem::swap(&mut frame, &mut self.frames[last]);
        let ghost want = old(self)@.update(
            old(self)@.len() - 1,
            if i < old(self)@.last().len() {
                old(self)@.last().update(i as int, tv)
            } else {
                old(self)@.last().push(tv)
            },
        );
        assert forall|f: int| 0 <= f < self@.len() implies #[trigger] self@[f] =~= want[f] by {}
        assert(self@ =~= want);
    }

    /// Opens a child frame holding `types`.
    pub fn push_frame(&mut self, types: &Vec<Type>)
        ensures
            final(self)@ == old(self)@.push(types_view(types@)),
    {
        let c = crate::ast::copy_types(types);
        self.frames.push(c);
        let ghost want = old(self)@.push(types_view(types@));
        assert forall|f: int| 0 <= f < self@.len() implies #[trigger] self@[f] =~= want[f] by {}
        assert(self@ =~= want);
    }

    /// Closes the innermost frame.
    pub fn pop_frame(&mut self)
        requires
            old(self)@.len() >= 1,
        ensures
            final(self)@ == old(self)@.subrange(0, old(self)@.len() - 1),
    {
        self.frames.pop();
        let ghost want = old(self)@.subrange(0, old(self)@.len() - 1);
        assert forall|f: int| 0 <= f < self@.len() implies #[trigger] self@[f] =~= want[f] by {}
        assert(self@ =~= want);
    }
}

} // verus!
