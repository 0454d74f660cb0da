//! The bookkeeping model around the sharing engine: bins that collect the
//! shares of one value each, the participants, and the chosen scheme.

use crate::secret::{Share, SharingError, SharingType, ValueType};
use vstd::prelude::*;

verus! {

/// Where the model stands in its send/receive lifecycle; `Idle` before
/// anything has started.
#[derive(Debug, Clone, Copy, PartialEq, Eq, Structural)]
pub enum State {
    Idle,
    Creating,
    SendingInput,
    SendingResult,
    RecievingInput,
    RecievingResult,
    Done,
}

/// A named slot holding the shares of one value.
#[derive(Debug)]
pub struct Bin {
    name: String,
    shares: Vec<Share>,
    complete: bool,
    result: Option<ValueType>,
}

impl Bin {
    pub closed spec fn spec_name(&self) -> Seq<char> {
        self.name@
    }

    pub closed spec fn spec_shares(&self) -> Seq<Share> {
        self.shares@
    }

    pub closed spec fn spec_complete(&self) -> bool {
        self.complete
    }

    pub closed spec fn spec_result(&self) -> Option<ValueType> {
        self.result
    }

    /// An empty, incomplete bin.
    pub fn new(name: &str) -> (r: Self)
        ensures
            r.spec_name() == name@,
            r.spec_shares().len() == 0,
            !r.spec_complete(),
            r.spec_result() is None,
    {
        Bin { name: name.to_owned(), shares: Vec::new(), complete: false, result: None }
    }

    /// The shares stored in this bin.
    pub fn shares(&self) -> (r: &[Share])
        ensures
            r@ == self.spec_shares(),
    {
        self.shares.as_slice()
    }
}

/// Someone taking part, with the messages not yet sent to them.
#[derive(Debug, Clone)]
pub struct Participant {
    name: String,
    email: String,
    unsent_messages: Vec<String>,
}

impl Participant {
    pub closed spec fn spec_name(&self) -> Seq<char> {
        self.name@
    }

    pub closed spec fn spec_email(&self) -> Seq<char> {
        self.email@
    }

    pub closed spec fn spec_unsent(&self) -> nat {
        self.unsent_messages@.len()
    }
}

/// Bins, participants and the scheme that shares the bins' values.
#[derive(Debug)]
pub struct ProgramModel {
    state: State,
    name: String,
    bins: Vec<Bin>,
    participants: Vec<Participant>,
    saved: bool,
    share_generator: SharingType,
}

impl ProgramModel {
    pub closed spec fn spec_bins(&self) -> Seq<Bin> {
        self.bins@
    }

    pub closed spec fn spec_participants(&self) -> Seq<Participant> {
        self.participants@
    }

    pub closed spec fn spec_generator(&self) -> SharingType {
        self.share_generator
    }

    pub closed spec fn spec_state(&self) -> State {
        self.state
    }

    pub closed spec fn spec_name(&self) -> Seq<char> {
        self.name@
    }

    pub closed spec fn spec_saved(&self) -> bool {
        self.saved
    }

    /// Lifecycle state, name and saved flag are the same in both models.
    pub open spec fn same_header(&self, other: &Self) -> bool {
        &&& self.spec_state() == other.spec_state()
        &&& self.spec_name() == other.spec_name()
        &&& self.spec_saved() == other.spec_saved()
    }

    /// An empty model with no scheme chosen.
    pub fn new() -> (r: Self)
        ensures
            r.spec_bins().len() == 0,
            r.spec_participants().len() == 0,
            r.spec_generator() is Unconfigured,
            r.spec_state() == State::Idle,
            r.spec_name().len() == 0,
            !r.spec_saved(),
    {
        Self {
            state: State::Idle,
            name: String::new(),
            bins: Vec::new(),
            participants: Vec::new(),
            saved: false,
            share_generator: SharingType::Unconfigured,
        }
    }

    /// Appends an empty bin named `name`.
    pub fn add_bin(&mut self, name: &str)
        ensures
            final(self).spec_bins().len() == old(self).spec_bins().len() + 1,
            final(self).spec_bins().drop_last() == old(self).spec_bins(),
            final(self).spec_bins().last().spec_name() == name@,
            final(self).spec_bins().last().spec_shares().len() == 0,
            !final(self).spec_bins().last().spec_complete(),
            final(self).spec_bins().last().spec_result() is None,
            final(self).same_header(old(self)),
            final(self).spec_participants() == old(self).spec_participants(),
            final(self).spec_generator() == old(self).spec_generator(),
    {
        self.bins.push(Bin::new(name));
        proof {
            assert(self.bins@.drop_last() =~= old(self).bins@);
        }
    }

    /// Appends a participant with no pending messages.
    pub fn add_participant(&mut self, name: &str, email: &str)
        ensures
            final(self).spec_participants().len() == old(self).spec_participants().len() + 1,
            final(self).spec_participants().drop_last() == old(self).spec_participants(),
            final(self).spec_participants().last().spec_name() == name@,
            final(self).spec_participants().last().spec_email() == email@,
            final(self).spec_participants().last().spec_unsent() == 0,
            final(self).same_header(old(self)),
            final(self).spec_bins() == old(self).spec_bins(),
            final(self).spec_generator() == old(self).spec_generator(),
    {
        self.participants.push(
            Participant { name: name.to_owned(), email: email.to_owned(), unsent_messages: Vec::new() },
        );
        proof {
            assert(self.participants@.drop_last() =~= old(self).participants@);
        }
    }

    /// The participant with the given id.
    pub fn get_participant(&self, id: usize) -> (r: &Participant)
        requires
            id < self.spec_participants().len(),
        ensures
            *r == self.spec_participants()[id as int],
    {
        &self.participants[id]
    }

    /// The bin with the given id.
    pub fn get_bin(&self, id: usize) -> (r: &Bin)
        requires
            id < self.spec_bins().len(),
        ensures
            *r == self.spec_bins()[id as int],
    {
        &self.bins[id]
    }

    pub fn get_num_bins(&self) -> (r: usize)
        ensures
            r == self.spec_bins().len(),
    {
        self.bins.len()
    }

    pub fn get_num_participants(&self) -> (r: usize)
        ensures
            r == self.spec_participants().len(),
    {
        self.participants.len()
    }

    /// Chooses the scheme that `set_bin_value` shares with.
    pub fn set_share_generator(&mut self, generator: SharingType)
        ensures
            final(self).spec_generator() == generator,
            final(self).same_header(old(self)),
            final(self).spec_bins() == old(self).spec_bins(),
            final(self).spec_participants() == old(self).spec_participants(),
    {
        self.share_generator = generator;
    }

    /// Shares `value` with the chosen scheme and stores the shares in bin
    /// `bin`. On an error nothing changes.
    pub fn set_bin_value(&mut self, bin: usize, value: ValueType) -> (r: Result<(), SharingError>)
        requires
            bin < old(self).spec_bins().len(),
        ensures
            final(self).spec_generator() == old(self).spec_generator(),
            final(self).spec_participants() == old(self).spec_participants(),
            final(self).spec_bins().len() == old(self).spec_bins().len(),
            forall|i: int|
                0 <= i < old(self).spec_bins().len() && i != bin ==> #[trigger] final(self).spec_bins()[i]
                    == old(self).spec_bins()[i],
            final(self).spec_bins()[bin as int].spec_name() == old(self).spec_bins()[bin as int].spec_name(),
            final(self).spec_bins()[bin as int].spec_complete() == old(self).spec_bins()[bin as int].spec_complete(),
            final(self).spec_bins()[bin as int].spec_result() == old(self).spec_bins()[bin as int].spec_result(),
            final(self).same_header(old(self)),
            match r {
                Ok(()) => exists|v: Vec<Share>|
                    #![trigger old(self).spec_generator().share_outcome(value, Ok(v))]
                    v@ == final(self).spec_bins()[bin as int].spec_shares()
                        && old(self).spec_generator().share_outcome(value, Ok(v)),
                Err(e) => old(self).spec_generator().share_outcome(value, Err(e)) && *final(self)
                    == *old(self),
            },
    {
        let shares = match self.share_generator.share(value) {
            Ok(s) => s,
            Err(e) => {
                return Err(e);
            },
        };
        let ghost sv = shares;
        let mut b = self.bins.remove(bin);
        b.shares = shares;
        self.bins.insert(bin, b);
        proof {
            assert(self.spec_bins()[bin as int].spec_shares() == sv@);
        }
        Ok(())
    }
}

} // verus!
