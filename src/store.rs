//! The configuration store: the current validated snapshot, replaced whole
//! on a successful reload and kept on a failed one.
use std::sync::Arc;

use vstd::prelude::*;

use crate::config::Config;
use crate::error::Error;

verus! {

/// A configuration that passed validation, shared read-only.
pub struct Snapshot {
    config: Arc<Config>,
}

impl Snapshot {
    /// A snapshot holds a valid configuration, whatever made it.
    #[verifier::type_invariant]
    spec fn valid(self) -> bool {
        self.config.spec_valid()
    }

    pub closed spec fn spec_config(&self) -> Config {
        *self.config
    }

    /// Validates the configuration; a snapshot exists only for a valid one.
    pub fn prepare(config: Config) -> (r: Result<Snapshot, Error>)
        ensures
            r is Ok <==> config.spec_valid(),
            r matches Ok(s) ==> s.spec_config() == config,
            r matches Err(e) ==> e is Config,
    {
        match config.validate() {
            Ok(()) => Ok(Snapshot { config: Arc::new(config) }),
            Err(e) => Err(e),
        }
    }

    pub fn config(&self) -> (r: &Config)
        ensures
            *r == self.spec_config(),
            r.spec_valid(),
    {
        proof {
            use_type_invariant(self);
        }
        &self.config
    }

    /// Another handle on the same snapshot.
    pub fn share(&self) -> (r: Snapshot)
        ensures
            r.spec_config() == self.spec_config(),
    {
        proof {
            use_type_invariant(self);
        }
        Snapshot { config: Arc::clone(&self.config) }
    }
}

/// Holds the snapshot that requests run against.
pub struct ConfigStore {
    current: Snapshot,
}

impl ConfigStore {
    /// The configuration new requests see.
    pub closed spec fn spec_current(&self) -> Config {
        self.current.spec_config()
    }

    /// A store serving the configuration, if it is valid.
    pub fn load(config: Config) -> (r: Result<ConfigStore, Error>)
        ensures
            r is Ok <==> config.spec_valid(),
            r matches Ok(s) ==> s.spec_current() == config,
            r matches Err(e) ==> e is Config,
    {
        match Snapshot::prepare(config) {
            Ok(s) => Ok(ConfigStore { current: s }),
            Err(e) => Err(e),
        }
    }

    /// The snapshot a request starts from; it stays usable whatever reloads
    /// follow.
    pub fn current(&self) -> (r: Snapshot)
        ensures
            r.spec_config() == self.spec_current(),
            r.spec_config().spec_valid(),
    {
        proof {
            use_type_invariant(&self.current);
        }
        self.current.share()
    }

    /// Makes a validated snapshot the current one.
    pub fn publish(&mut self, snapshot: Snapshot)
        ensures
            final(self).spec_current() == snapshot.spec_config(),
    {
        self.current = snapshot;
    }

    /// Validates the candidate and, if it is valid, makes it current; on a
    /// failure the current snapshot stays as it was.
    pub fn reload(&mut self, candidate: Config) -> (r: Result<(), Error>)
        ensures
            r is Ok <==> candidate.spec_valid(),
            r is Ok ==> final(self).spec_current() == candidate,
            r is Err ==> final(self).spec_current() == old(self).spec_current(),
            r matches Err(e) ==> e is Config,
    {
        match Snapshot::prepare(candidate) {
            Ok(s) => {
                self.publish(s);
                Ok(())
            },
            Err(e) => Err(e),
        }
    }
}

} // verus!
