use vstd::prelude::*;

use crate::text::{decimal, push_decimal};

use crate::infrastructure::ServiceId;

verus! {

/// Credits spent to create one network link.
pub const NETWORK_LINK_COST: u64 = 10;

/// A directed connection from one service to another.
#[derive(Clone, Copy, Debug, PartialEq, Eq, Structural)]
pub struct NetworkLink {
    pub from: ServiceId,
    pub to: ServiceId,
}

/// The directed links between services, in the order they were created.
#[derive(Clone, Debug, PartialEq, Eq)]
pub struct Network {
    links: Vec<NetworkLink>,
}

/// Whether `links` holds a link from `from` to `to`.
pub open spec fn links_contain(links: Seq<NetworkLink>, from: ServiceId, to: ServiceId) -> bool {
    exists|i: int| 0 <= i < links.len() && #[trigger] links[i] == (NetworkLink { from, to })
}

/// The targets of the links leaving `from`, in link order.
pub open spec fn outgoing_targets(links: Seq<NetworkLink>, from: ServiceId) -> Seq<ServiceId>
    decreases links.len(),
{
    if links.len() == 0 {
        Seq::empty()
    } else {
        let rest = outgoing_targets(links.drop_last(), from);
        if links.last().from == from {
            rest.push(links.last().to)
        } else {
            rest
        }
    }
}

impl Default for Network {
    fn default() -> (network: Self)
        ensures
            network.spec_links() == Seq::<NetworkLink>::empty(),
    {
        Network { links: Vec::new() }
    }
}

impl Network {
    pub closed spec fn spec_links(self) -> Seq<NetworkLink> {
        self.links@
    }

    pub fn links(&self) -> (links: &[NetworkLink])
        ensures
            links@ == self.spec_links(),
    {
        self.links.as_slice()
    }

    pub fn has_link(&self, from: ServiceId, to: ServiceId) -> (found: bool)
        ensures
            found == links_contain(self.spec_links(), from, to),
    {
        let mut i: usize = 0;
        while i < self.links.len()
            invariant
                i <= self.links@.len(),
                forall|j: int| 0 <= j < i ==> self.links@[j] != (NetworkLink { from, to }),
            decreases self.links@.len() - i,
        {
            let link = self.links[i];
            if link.from == from && link.to == to {
                return true;
            }
            i = i + 1;
        }
        false
    }

    /// A new link must join two different services and must not exist yet.
    pub fn validate_link(&self, from: ServiceId, to: ServiceId) -> (res: Result<(), NetworkError>)
        ensures
            res == if from == to {
                Err(NetworkError::SelfConnection(from))
            } else if links_contain(self.spec_links(), from, to) {
                Err(NetworkError::DuplicateLink { from, to })
            } else {
                Ok(())
            },
    {
        if from == to {
            return Err(NetworkError::SelfConnection(from));
        }
        if self.has_link(from, to) {
            return Err(NetworkError::DuplicateLink { from, to });
        }
        Ok(())
    }

    pub fn add_link(&mut self, from: ServiceId, to: ServiceId)
        ensures
            final(self).spec_links() == old(self).spec_links().push(NetworkLink { from, to }),
    {
        self.links.push(NetworkLink { from, to });
    }

    /// Removes the first link from `from` to `to`, or reports that there is none.
    pub fn remove_link(&mut self, from: ServiceId, to: ServiceId) -> (res: Result<(), NetworkError>)
        ensures
            match res {
                Ok(()) => exists|i: int|
                    0 <= i < old(self).spec_links().len() && old(self).spec_links()[i]
                        == (NetworkLink { from, to }) && (forall|j: int|
                        0 <= j < i ==> old(self).spec_links()[j] != (NetworkLink { from, to }))
                        && final(self).spec_links() == old(self).spec_links().remove(i),
                Err(error) => !links_contain(old(self).spec_links(), from, to) && error
                    == (NetworkError::MissingLink { from, to }) && *final(self) == *old(self),
            },
    {
        let mut i: usize = 0;
        while i < self.links.len()
            invariant
                i <= self.links@.len(),
                *self == *old(self),
                forall|j: int| 0 <= j < i ==> self.links@[j] != (NetworkLink { from, to }),
            decreases self.links@.len() - i,
        {
            let link = self.links[i];
            if link.from == from && link.to == to {
                let ghost before = self.links@;
                self.links.remove(i);
                proof {
                    assert(before[i as int] == (NetworkLink { from, to }));
                    assert(self.links@ == before.remove(i as int));
                    let k = i as int;
                    assert(0 <= k < old(self).spec_links().len() && old(self).spec_links()[k]
                        == (NetworkLink { from, to }) && (forall|j: int|
                        0 <= j < k ==> old(self).spec_links()[j] != (NetworkLink { from, to }))
                        && self.spec_links() == old(self).spec_links().remove(k));
                }
                return Ok(());
            }
            i = i + 1;
        }
        Err(NetworkError::MissingLink { from, to })
    }

    /// The targets of the links leaving `from`, in link order.
    pub fn outgoing(&self, from: ServiceId) -> (targets: Vec<ServiceId>)
        ensures
            targets@ == outgoing_targets(self.spec_links(), from),
    {
        let mut targets: Vec<ServiceId> = Vec::new();
        let mut i: usize = 0;
        while i < self.links.len()
            invariant
                i <= self.links@.len(),
                targets@ == outgoing_targets(self.links@.take(i as int), from),
            decreases self.links@.len() - i,
        {
            proof {
                assert(self.links@.take(i + 1).drop_last() == self.links@.take(i as int));
            }
            let link = self.links[i];
            if link.from == from {
                targets.push(link.to);
            }
            i = i + 1;
        }
        proof {
            assert(self.links@.take(self.links@.len() as int) == self.links@);
        }
        targets
    }
}

/// Why a network change was rejected.
#[derive(Clone, Copy, Debug, PartialEq, Eq, Structural)]
pub enum NetworkError {
    UnknownService(ServiceId),
    SelfConnection(ServiceId),
    DuplicateLink { from: ServiceId, to: ServiceId },
    MissingLink { from: ServiceId, to: ServiceId },
}


impl NetworkError {
    /// The error as a sentence.
    pub open spec fn spec_message(self) -> Seq<char> {
        match self {
            NetworkError::UnknownService(id) => "service "@ + decimal(id.spec_value() as nat)
                + " does not exist"@,
            NetworkError::SelfConnection(id) => "service "@ + decimal(id.spec_value() as nat)
                + " cannot connect to itself"@,
            NetworkError::DuplicateLink { from, to } => "network link "@ + decimal(
                from.spec_value() as nat,
            ) + " -> "@ + decimal(to.spec_value() as nat) + " already exists"@,
            NetworkError::MissingLink { from, to } => "network link "@ + decimal(
                from.spec_value() as nat,
            ) + " -> "@ + decimal(to.spec_value() as nat) + " does not exist"@,
        }
    }

    pub fn to_string(&self) -> (text: String)
        ensures
            text@ == self.spec_message(),
    {
        let mut text = String::new();
        match *self {
            NetworkError::UnknownService(id) => {
                text.append("service ");
                push_decimal(&mut text, id.value() as u128);
                text.append(" does not exist");
            },
            NetworkError::SelfConnection(id) => {
                text.append("service ");
                push_decimal(&mut text, id.value() as u128);
                text.append(" cannot connect to itself");
            },
            NetworkError::DuplicateLink { from, to } => {
                text.append("network link ");
                push_decimal(&mut text, from.value() as u128);
                text.append(" -> ");
                push_decimal(&mut text, to.value() as u128);
                text.append(" already exists");
            },
            NetworkError::MissingLink { from, to } => {
                text.append("network link ");
                push_decimal(&mut text, from.value() as u128);
                text.append(" -> ");
                push_decimal(&mut text, to.value() as u128);
                text.append(" does not exist");
            },
        }
        assert(text@ =~= self.spec_message());
        text
    }
}

} // verus!
