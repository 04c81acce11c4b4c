//! The scope chain: a stack of frames, each binding names to storage cells.
//!
//! The chain is modelled as a sequence of maps from names to cell indices, the
//! innermost frame last. A name resolves to the cell that the innermost frame
//! holding it gives; declaring a name touches the innermost frame only.

use vstd::prelude::*;

verus! {

#[derive(Clone, Copy, Debug)]
pub struct Binding<'a> {
    pub name: &'a str,
    pub cell: usize,
}

pub type FrameView = Map<Seq<char>, usize>;

pub type ChainView = Seq<FrameView>;

/// The map that a list of bindings stands for: a later binding of a name
/// replaces an earlier one.
pub open spec fn frame_map(bindings: Seq<Binding>) -> FrameView
    decreases bindings.len(),
{
    if bindings.len() == 0 {
        Map::empty()
    } else {
        frame_map(bindings.drop_last()).insert(bindings.last().name@, bindings.last().cell)
    }
}

/// The cell that `name` resolves to: the innermost frame that binds it decides.
pub open spec fn resolve(chain: ChainView, name: Seq<char>) -> Option<usize>
    decreases chain.len(),
{
    if chain.len() == 0 {
        None
    } else if chain.last().contains_key(name) {
        Some(chain.last()[name])
    } else {
        resolve(chain.drop_last(), name)
    }
}

/// The chain after `name` was bound to `cell` in the innermost frame.
pub open spec fn declare(chain: ChainView, name: Seq<char>, cell: usize) -> ChainView {
    if chain.len() == 0 {
        chain
    } else {
        chain.update(chain.len() - 1, chain.last().insert(name, cell))
    }
}

pub open spec fn push_frame(chain: ChainView) -> ChainView {
    chain.push(Map::empty())
}

pub open spec fn pop_frame(chain: ChainView) -> ChainView {
    if chain.len() == 0 {
        chain
    } else {
        chain.drop_last()
    }
}

/// Bindings from index `from` on that do not mention `name` do not matter to
/// what the frame says about `name`.
proof fn lemma_frame_tail(bindings: Seq<Binding>, name: Seq<char>, from: int)
    requires
        0 <= from <= bindings.len(),
        forall|k: int| from <= k < bindings.len() ==> bindings[k].name@ != name,
    ensures
        frame_map(bindings).contains_key(name) == frame_map(bindings.take(from)).contains_key(
            name,
        ),
        frame_map(bindings).contains_key(name) ==> frame_map(bindings)[name] == frame_map(
            bindings.take(from),
        )[name],
    decreases bindings.len() - from,
{
    if from == bindings.len() {
        assert(bindings.take(from) =~= bindings);
    } else {
        let shorter = bindings.drop_last();
        assert(shorter.take(from) =~= bindings.take(from));
        lemma_frame_tail(shorter, name, from);
    }
}

/// Frames from index `from` on that do not bind `name` do not matter to what
/// `name` resolves to.
proof fn lemma_chain_tail(chain: ChainView, name: Seq<char>, from: int)
    requires
        0 <= from <= chain.len(),
        forall|k: int| from <= k < chain.len() ==> !chain[k].contains_key(name),
    ensures
        resolve(chain, name) == resolve(chain.take(from), name),
    decreases chain.len() - from,
{
    if from == chain.len() {
        assert(chain.take(from) =~= chain);
    } else {
        let shorter = chain.drop_last();
        assert(shorter.take(from) =~= chain.take(from));
        lemma_chain_tail(shorter, name, from);
    }
}

pub struct ScopeChain<'a> {
    pub frames: Vec<Vec<Binding<'a>>>,
}

impl<'a> View for ScopeChain<'a> {
    type V = ChainView;

    open spec fn view(&self) -> ChainView {
        Seq::new(self.frames@.len(), |i: int| frame_map(self.frames@[i]@))
    }
}

/// Looks `name` up in one frame.
fn frame_lookup(bindings: &Vec<Binding<'_>>, name: &str) -> (r: Option<usize>)
    ensures
        match r {
            Some(cell) => frame_map(bindings@).contains_key(name@) && frame_map(bindings@)[name@]
                == cell,
            None => !frame_map(bindings@).contains_key(name@),
        },
{
    let mut i: usize = bindings.len();
    while i > 0
        invariant
            i <= bindings.len(),
            forall|k: int| i <= k < bindings.len() ==> bindings@[k].name@ != name@,
        decreases i,
    {
        i -= 1;
        if bindings[i].name.eq(name) {
            proof {
                lemma_frame_tail(bindings@, name@, i + 1);
                let upto = bindings@.take(i + 1);
                assert(upto.last() == bindings@[i as int]);
            }
            return Some(bindings[i].cell);
        }
    }
    proof {
        lemma_frame_tail(bindings@, name@, 0);
        assert(bindings@.take(0) =~= Seq::<Binding>::empty());
    }
    None
}

impl<'a> ScopeChain<'a> {
    pub fn new() -> (chain: ScopeChain<'a>)
        ensures
            chain@ == Seq::<FrameView>::empty(),
    {
        let chain = ScopeChain { frames: Vec::new() };
        assert(chain@ =~= Seq::<FrameView>::empty());
        chain
    }

    pub fn depth(&self) -> (n: usize)
        ensures
            n == self@.len(),
    {
        self.frames.len()
    }

    /// Enters a new, empty innermost frame.
    pub fn push_frame(&mut self)
        ensures
            final(self)@ == push_frame(old(self)@),
    {
        self.frames.push(Vec::new());
        assert(self@ =~= push_frame(old(self)@));
    }

    /// Leaves the innermost frame. Returns whether there was one.
    pub fn pop_frame(&mut self) -> (done: bool)
        ensures
            done == (old(self)@.len() > 0),
            final(self)@ == pop_frame(old(self)@),
    {
        match self.frames.pop() {
            Some(_) => {
                assert(self@ =~= pop_frame(old(self)@));
                true
            },
            None => false,
        }
    }

    /// Binds `name` to `cell` in the innermost frame. Returns whether there is
    /// a frame to bind it in.
    pub fn declare(&mut self, name: &'a str, cell: usize) -> (done: bool)
        ensures
            done == (old(self)@.len() > 0),
            final(self)@ == declare(old(self)@, name@, cell),
    {
        let n = self.frames.len();
        if n == 0 {
            return false;
        }
        let ghost before = self.frames@[n - 1]@;
        self.frames[n - 1].push(Binding { name, cell });
        proof {
            let after = self.frames@[n - 1]@;
            assert(after.drop_last() =~= before);
            assert(self@ =~= declare(old(self)@, name@, cell));
        }
        true
    }

    /// The cell that `name` stands for, looking from the innermost frame
    /// outwards.
    pub fn resolve(&self, name: &str) -> (r: Option<usize>)
        ensures
            r == resolve(self@, name@),
    {
        let mut i: usize = self.frames.len();
        while i > 0
            invariant
                i <= self.frames.len(),
                forall|k: int| i <= k < self@.len() ==> !self@[k].contains_key(name@),
            decreases i,
        {
            i -= 1;
            match frame_lookup(&self.frames[i], name) {
                Some(cell) => {
                    proof {
                        lemma_chain_tail(self@, name@, i + 1);
                        assert(self@.take(i + 1).last() == self@[i as int]);
                    }
                    return Some(cell);
                },
                None => {},
            }
        }
        proof {
            lemma_chain_tail(self@, name@, 0);
        }
        None
    }
}

} // verus!
