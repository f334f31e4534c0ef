use vstd::prelude::*;
use crate::assoc::{
    assoc_map, keys_distinct, lemma_assoc_absent, lemma_assoc_lookup, lemma_assoc_push,
    lemma_assoc_update,
};
use crate::error::EntropyError;
use crate::hash_chain::PebbleHashChain;

verus! {

/// What the registry holds under a chain identifier: nothing yet, or the
/// chain, built.
pub enum ChainState {
    Uninitialized,
    Initialized(PebbleHashChain),
}

impl ChainState {
    /// Whether the chain has been built.
    pub fn is_initialized(&self) -> (built: bool)
        ensures
            built == (*self is Initialized),
    {
        match self {
            ChainState::Initialized(_) => true,
            ChainState::Uninitialized => false,
        }
    }
}

struct ChainSlot {
    id: String,
    state: ChainState,
}

/// The chains of a provider, by chain identifier.
pub struct ChainRegistry {
    slots: Vec<ChainSlot>,
}

/// What `initialize` returns and leaves behind: an unknown identifier and a
/// chain that is already built are turned down and change nothing; an
/// identifier that awaits its chain gets it.
pub open spec fn initialize_outcome(
    before: Map<Seq<char>, ChainState>,
    after: Map<Seq<char>, ChainState>,
    chain_id: Seq<char>,
    chain: PebbleHashChain,
    outcome: Result<(), EntropyError>,
) -> bool {
    if !before.dom().contains(chain_id) {
        after == before && outcome == Err::<(), EntropyError>(EntropyError::InvalidChainId)
    } else if before[chain_id] is Initialized {
        after == before && outcome == Err::<(), EntropyError>(EntropyError::AlreadyInitialized)
    } else {
        after == before.insert(chain_id, ChainState::Initialized(chain)) && outcome == Ok::<
            (),
            EntropyError,
        >(())
    }
}

impl View for ChainRegistry {
    type V = Map<Seq<char>, ChainState>;

    closed spec fn view(&self) -> Map<Seq<char>, ChainState> {
        assoc_map(self.keys(), self.states())
    }
}

impl ChainRegistry {
    spec fn keys(&self) -> Seq<Seq<char>> {
        Seq::new(self.slots@.len(), |i: int| self.slots@[i].id@)
    }

    spec fn states(&self) -> Seq<ChainState> {
        Seq::new(self.slots@.len(), |i: int| self.slots@[i].state)
    }

    /// No identifier is held twice.
    pub closed spec fn wf(&self) -> bool {
        keys_distinct(self.keys())
    }

    /// A registry that knows no chain identifier.
    pub fn new() -> (registry: Self)
        ensures
            registry.wf(),
            registry@ == Map::<Seq<char>, ChainState>::empty(),
    {
        let registry = ChainRegistry { slots: Vec::new() };
        assert(registry@ =~= Map::<Seq<char>, ChainState>::empty());
        registry
    }

    fn find(&self, chain_id: &String) -> (found: Option<usize>)
        ensures
            match found {
                Some(i) => i < self.slots@.len() && self.keys()[i as int] == chain_id@,
                None => forall|i: int| 0 <= i < self.keys().len() ==> self.keys()[i] != chain_id@,
            },
    {
        let mut i: usize = 0;
        while i < self.slots.len()
            invariant
                i <= self.slots@.len(),
                forall|j: int| 0 <= j < i ==> self.keys()[j] != chain_id@,
            decreases self.slots@.len() - i,
        {
            if self.slots[i].id == *chain_id {
                return Some(i);
            }
            i = i + 1;
        }
        None
    }

    /// Makes the identifier known, its chain not built yet. An identifier
    /// that is known already keeps what it holds; the result says whether
    /// the identifier was new.
    pub fn register(&mut self, chain_id: String) -> (added: bool)
        requires
            old(self).wf(),
        ensures
            final(self).wf(),
            added == !old(self)@.dom().contains(chain_id@),
            added ==> final(self)@ == old(self)@.insert(chain_id@, ChainState::Uninitialized),
            !added ==> final(self)@ == old(self)@,
    {
        let found = self.find(&chain_id);
        match found {
            Some(i) => {
                proof {
                    lemma_assoc_lookup(self.keys(), self.states(), i as int);
                }
                false
            },
            None => {
                let ghost id = chain_id@;
                proof {
                    lemma_assoc_absent(self.keys(), self.states(), id);
                }
                self.slots.push(ChainSlot { id: chain_id, state: ChainState::Uninitialized });
                proof {
                    assert(self.keys() =~= old(self).keys().push(id));
                    assert(self.states() =~= old(self).states().push(ChainState::Uninitialized));
                    lemma_assoc_push(
                        old(self).keys(),
                        old(self).states(),
                        id,
                        ChainState::Uninitialized,
                    );
                }
                true
            },
        }
    }

    /// What is held under the identifier; `InvalidChainId` where the
    /// identifier is not known.
    pub fn get(&self, chain_id: &str) -> (state: Result<&ChainState, EntropyError>)
        requires
            self.wf(),
        ensures
            self@.dom().contains(chain_id@) ==> state.is_ok() && *state.unwrap()
                == self@[chain_id@],
            !self@.dom().contains(chain_id@) ==> state == Err::<&ChainState, EntropyError>(
                EntropyError::InvalidChainId,
            ),
    {
        let key = chain_id.to_owned();
        match self.find(&key) {
            None => {
                proof {
                    lemma_assoc_absent(self.keys(), self.states(), key@);
                }
                Err(EntropyError::InvalidChainId)
            },
            Some(i) => {
                proof {
                    lemma_assoc_lookup(self.keys(), self.states(), i as int);
                }
                Ok(&self.slots[i].state)
            },
        }
    }

    /// Hands the built chain to an identifier that awaits it. A second
    /// chain for the same identifier is turned down.
    pub fn initialize(&mut self, chain_id: &str, chain: PebbleHashChain) -> (outcome: Result<
        (),
        EntropyError,
    >)
        requires
            old(self).wf(),
        ensures
            final(self).wf(),
            initialize_outcome(old(self)@, final(self)@, chain_id@, chain, outcome),
    {
        let key = chain_id.to_owned();
        let found = self.find(&key);
        match found {
            None => {
                proof {
                    lemma_assoc_absent(self.keys(), self.states(), key@);
                }
                Err(EntropyError::InvalidChainId)
            },
            Some(i) => {
                proof {
                    lemma_assoc_lookup(self.keys(), self.states(), i as int);
                }
                if self.slots[i].state.is_initialized() {
                    return Err(EntropyError::AlreadyInitialized);
                }
                self.slots[i].state = ChainState::Initialized(chain);
                proof {
                    assert(self.keys() =~= old(self).keys());
                    assert(self.states() =~= old(self).states().update(
                        i as int,
                        ChainState::Initialized(chain),
                    ));
                    lemma_assoc_update(
                        old(self).keys(),
                        old(self).states(),
                        i as int,
                        ChainState::Initialized(chain),
                    );
                }
                Ok(())
            },
        }
    }
}

/// Once an identifier holds a built chain, every further `initialize` for
/// it is turned down as `AlreadyInitialized` and changes nothing: the chain
/// that readers see is never replaced.
pub proof fn lemma_initialize_only_once(
    before: Map<Seq<char>, ChainState>,
    between: Map<Seq<char>, ChainState>,
    after: Map<Seq<char>, ChainState>,
    chain_id: Seq<char>,
    first: PebbleHashChain,
    second: PebbleHashChain,
    second_outcome: Result<(), EntropyError>,
)
    requires
        initialize_outcome(before, between, chain_id, first, Ok(())),
        initialize_outcome(between, after, chain_id, second, second_outcome),
    ensures
        second_outcome == Err::<(), EntropyError>(EntropyError::AlreadyInitialized),
        after == between,
        after[chain_id] == ChainState::Initialized(first),
{
}

} // verus!
