//! The memory that an index of frames takes, and what was asked of it.
use vstd::prelude::*;

verus! {

/// Calls `Vec::try_reserve_exact`, which leaves the elements as they are. Whether the
/// allocator grants the request is left open.
#[verifier::external_body]
fn try_reserve_exact<T>(index: &mut Vec<T>, additional: usize) -> (granted: bool)
    ensures
        final(index)@ == old(index)@,
{
    index.try_reserve_exact(additional).is_ok()
}

/// Calls `Vec::capacity`: room for at least the elements that are there, in an allocation of
/// at most `isize::MAX` bytes. How much more room the allocator gave is left open.
#[verifier::external_body]
fn capacity<T>(index: &Vec<T>) -> (entries: usize)
    ensures
        entries >= index@.len(),
        entries * vstd::layout::size_of::<T>() <= isize::MAX,
{
    index.capacity()
}

/// The memory that an index of frames is kept in.
pub trait Reserve {
    /// A request can be refused; left open for memory outside this library.
    open spec fn may_refuse(&self) -> bool {
        arbitrary()
    }

    /// The requests so far, in order, each as its entries and whether it was granted; left open
    /// likewise.
    open spec fn requests(&self) -> Seq<(nat, bool)> {
        arbitrary()
    }

    /// The entries that the index of the latest granted request has room for; left open
    /// likewise.
    open spec fn room(&self) -> nat {
        arbitrary()
    }

    /// Asks for room for `additional` more entries, and says for how many there is room then,
    /// those in use among them.
    fn reserve<T>(&mut self, index: &mut Vec<T>, additional: usize) -> (room: Option<usize>)
        ensures
            final(index)@ == old(index)@,
            final(self).may_refuse() == old(self).may_refuse(),
            final(self).requests() == old(self).requests().push(
                (additional as nat, room is Some),
            ),
            match room {
                Some(entries) => {
                    &&& entries >= old(index)@.len() + additional
                    &&& entries * vstd::layout::size_of::<T>() <= isize::MAX
                    &&& final(self).room() == entries
                },
                None => {
                    &&& old(self).may_refuse()
                    &&& final(self).room() == old(self).room()
                },
            },
    ;
}

/// The global allocator, which can refuse any request.
pub struct Allocator {
    log: Ghost<Seq<(nat, bool)>>,
    latest: Ghost<nat>,
}

impl Allocator {
    pub fn new() -> (memory: Allocator)
        ensures
            memory.requests() == Seq::<(nat, bool)>::empty(),
            memory.room() == 0,
    {
        Allocator { log: Ghost(Seq::empty()), latest: Ghost(0) }
    }
}

impl Reserve for Allocator {
    open spec fn may_refuse(&self) -> bool {
        true
    }

    closed spec fn requests(&self) -> Seq<(nat, bool)> {
        self.log@
    }

    closed spec fn room(&self) -> nat {
        self.latest@
    }

    /// Room that is granted is looked at, not taken on trust.
    fn reserve<T>(&mut self, index: &mut Vec<T>, additional: usize) -> Option<usize> {
        if try_reserve_exact(index, additional) {
            let entries: usize = capacity(index);
            if entries - index.len() >= additional {
                self.log = Ghost(self.log@.push((additional as nat, true)));
                self.latest = Ghost(entries as nat);
                return Some(entries);
            }
        }
        self.log = Ghost(self.log@.push((additional as nat, false)));
        None
    }
}

/// The requests of these sizes, all of them granted.
pub open spec fn granted(sizes: Seq<nat>) -> Seq<(nat, bool)> {
    sizes.map_values(|size: nat| (size, true))
}

/// Of the requests of these sizes the first ones were made, and granted.
pub open spec fn granted_up_to(
    before: Seq<(nat, bool)>,
    after: Seq<(nat, bool)>,
    sizes: Seq<nat>,
) -> bool {
    exists|made: int|
        0 <= made <= sizes.len() && after == before + granted(#[trigger] sizes.take(made))
}

/// Of the requests of these sizes the first ones were granted and the next one was refused; it
/// was the last.
pub open spec fn refused_in(
    before: Seq<(nat, bool)>,
    after: Seq<(nat, bool)>,
    sizes: Seq<nat>,
) -> bool {
    exists|made: int|
        0 <= made < sizes.len() && after == (before + granted(#[trigger] sizes.take(made))).push(
            (sizes[made], false),
        )
}

/// Requests are granted one after the other.
pub(crate) proof fn lemma_granted_add(
    before: Seq<(nat, bool)>,
    first: Seq<nat>,
    second: Seq<nat>,
    rest: Seq<nat>,
)
    ensures
        before + granted(Seq::<nat>::empty()) == before,
        before + granted(first) + granted(second) == before + granted(first + second),
        first + (second + rest) == (first + second) + rest,
        first + Seq::<nat>::empty() == first,
        Seq::<nat>::empty() + first == first,
        (first + second) + Seq::<nat>::empty() == first + second,
{
    assert(before + granted(Seq::<nat>::empty()) =~= before);
    assert(before + granted(first) + granted(second) =~= before + granted(first + second));
    assert(first + (second + rest) =~= (first + second) + rest);
    assert(first + Seq::<nat>::empty() =~= first);
    assert(Seq::<nat>::empty() + first =~= first);
    assert((first + second) + Seq::<nat>::empty() =~= first + second);
}

/// Some requests were granted.
pub(crate) proof fn lemma_granted_up_to(
    before: Seq<(nat, bool)>,
    after: Seq<(nat, bool)>,
    made: Seq<nat>,
    rest: Seq<nat>,
)
    requires
        after == before + granted(made),
    ensures
        granted_up_to(before, after, made + rest),
{
    assert((made + rest).take(made.len() as int) =~= made);
}

/// Some requests were granted and the next one was refused.
pub(crate) proof fn lemma_refused_in(
    before: Seq<(nat, bool)>,
    after: Seq<(nat, bool)>,
    made: Seq<nat>,
    next: nat,
    rest: Seq<nat>,
)
    requires
        after == (before + granted(made)).push((next, false)),
    ensures
        refused_in(before, after, (made + seq![next]) + rest),
{
    let sizes = (made + seq![next]) + rest;
    assert(sizes.take(made.len() as int) =~= made);
    assert(sizes[made.len() as int] == next);
}

} // verus!
