//! Engine systems and the manager that sets them up and tears them down.
//!
//! The life of a system starts with `setup` and ends with `teardown`. The
//! manager keeps the systems that were set up, each under its name.
use vstd::prelude::*;
use vstd::string::*;
use crate::console::ConsoleContext;

verus! {

/// A system that is attached to the engine. What a system does when it is
/// set up and torn down, and whether it succeeds, is its own affair.
pub trait EngineSystem {
    /// The name under which the system is registered.
    fn get_name(&self) -> String;

    /// Brings the system to life.
    fn setup(&mut self) -> Result<(), String>;

    /// Lets the system add its console variables to `context`. A system
    /// that has none does nothing.
    fn setup_console_vars(&mut self, context: &mut ConsoleContext) -> (outcome: Result<(), String>)
        requires
            old(context).wf(),
        ensures
            final(context).wf(),
    {
        Ok(())
    }

    /// Ends the life of the system.
    fn teardown(&mut self) -> Result<(), String>;
}

impl EngineSystem for ConsoleContext {
    fn get_name(&self) -> (name: String)
        ensures
            name@ == "ConsoleContext"@,
    {
        "ConsoleContext".to_owned()
    }

    /// Setting the console up always succeeds and changes nothing.
    fn setup(&mut self) -> (outcome: Result<(), String>)
        ensures
            *final(self) == *old(self),
            outcome == Ok::<(), String>(()),
    {
        Ok(())
    }

    /// Tearing the console down always succeeds and changes nothing.
    fn teardown(&mut self) -> (outcome: Result<(), String>)
        ensures
            *final(self) == *old(self),
            outcome == Ok::<(), String>(()),
    {
        Ok(())
    }
}

/// The message for a system that could not be set up.
pub open spec fn add_failure(name: Seq<char>, reason: Seq<char>) -> Seq<char> {
    name + " add FAILED! "@ + reason
}

/// The message for a system that could not be torn down.
pub open spec fn removal_failure(name: Seq<char>, reason: Seq<char>) -> Seq<char> {
    name + " removal FAILED! "@ + reason
}

/// The message for a name under which no system is registered.
pub open spec fn not_registered(name: Seq<char>) -> Seq<char> {
    name + " not registered"@
}

/// What registering does with a system that answered `outcome` when it was
/// set up and came out of that as `system`: on success the system is kept
/// under `name`, in place of any that was there; on failure nothing is kept
/// and the message says why.
pub open spec fn enrolled<S>(
    before: Map<Seq<char>, S>,
    name: Seq<char>,
    system: S,
    outcome: Result<(), String>,
    after: Map<Seq<char>, S>,
    answer: Result<(), String>,
) -> bool {
    match outcome {
        Ok(_) => answer == Ok::<(), String>(()) && after == before.insert(name, system),
        Err(reason) => (answer matches Err(message) && message@ == add_failure(name, reason@))
            && after == before,
    }
}

/// What unregistering does with the system under `name` that answered
/// `outcome` when it was torn down and came out of that as `system`: on
/// success it is dropped; on failure it stays, and the message says why.
pub open spec fn released<S>(
    before: Map<Seq<char>, S>,
    name: Seq<char>,
    system: S,
    outcome: Result<(), String>,
    after: Map<Seq<char>, S>,
    answer: Result<(), String>,
) -> bool {
    match outcome {
        Ok(_) => answer == Ok::<(), String>(()) && after == before.remove(name),
        Err(reason) => (answer matches Err(message) && message@ == removal_failure(name, reason@))
            && after == before.insert(name, system),
    }
}

/// What registering a system does, whatever the system's name is and
/// however its setup ends.
pub open spec fn registered<S>(
    before: Map<Seq<char>, S>,
    after: Map<Seq<char>, S>,
    answer: Result<(), String>,
) -> bool {
    exists|name: Seq<char>, system: S, outcome: Result<(), String>| #[trigger]
        enrolled(before, name, system, outcome, after, answer)
}

/// What unregistering the system under `name` does, however its teardown
/// ends: where no system is registered under that name, nothing changes and
/// the message says so.
pub open spec fn unregistered<S>(
    before: Map<Seq<char>, S>,
    name: Seq<char>,
    after: Map<Seq<char>, S>,
    answer: Result<(), String>,
) -> bool {
    if before.contains_key(name) {
        exists|system: S, outcome: Result<(), String>| #[trigger]
            released(before, name, system, outcome, after, answer)
    } else {
        (answer matches Err(message) && message@ == not_registered(name)) && after == before
    }
}

/// The systems that were set up, each under its name.
pub struct SystemManagerData<S: EngineSystem> {
    names: Vec<String>,
    systems: Vec<S>,
}

impl<S: EngineSystem> View for SystemManagerData<S> {
    type V = Map<Seq<char>, S>;

    /// The registered systems by name.
    closed spec fn view(&self) -> Map<Seq<char>, S> {
        Map::new(
            |name: Seq<char>| self.slot_of(name).is_some(),
            |name: Seq<char>| self.systems@[self.slot_of(name).unwrap()],
        )
    }
}

impl<S: EngineSystem> SystemManagerData<S> {
    /// Where the system registered as `name` is kept, if there is one.
    closed spec fn slot_of(&self, name: Seq<char>) -> Option<int> {
        if exists|i: int| 0 <= i < self.names@.len() && (#[trigger] self.names@[i])@ == name {
            Some(choose|i: int| 0 <= i < self.names@.len() && (#[trigger] self.names@[i])@ == name)
        } else {
            None
        }
    }

    /// Every name has its system, and no name is kept twice.
    pub closed spec fn wf(&self) -> bool {
        &&& self.names@.len() == self.systems@.len()
        &&& forall|i: int, j: int|
            0 <= i < self.names@.len() && 0 <= j < self.names@.len() && (
            #[trigger] self.names@[i])@ == (#[trigger] self.names@[j])@ ==> i == j
    }

    /// A manager without systems.
    pub fn new() -> (data: Self)
        ensures
            data.wf(),
            data@ == Map::<Seq<char>, S>::empty(),
    {
        let data = SystemManagerData { names: Vec::new(), systems: Vec::new() };
        assert(data@ =~= Map::<Seq<char>, S>::empty());
        data
    }

    /// The place of the system registered as `name`.
    fn find(&self, name: &String) -> (found: Option<usize>)
        requires
            self.wf(),
        ensures
            found matches Some(i) ==> i < self.names@.len() && self.names@[i as int]@ == name@
                && self.slot_of(name@) == Some(i as int),
            found is None ==> self.slot_of(name@) is None,
    {
        let mut i: usize = 0;
        while i < self.names.len()
            invariant
                i <= self.names@.len(),
                self.wf(),
                forall|j: int| 0 <= j < i ==> (#[trigger] self.names@[j])@ != name@,
            decreases self.names@.len() - i,
        {
            if self.names[i] == *name {
                return Some(i);
            }
            i += 1;
        }
        None
    }

    /// Whether a system is registered as `name`.
    pub fn is_registered(&self, name: &String) -> (r: bool)
        requires
            self.wf(),
        ensures
            r == self@.contains_key(name@),
    {
        self.find(name).is_some()
    }

    /// Concludes a registration: `system` came out of its setup with
    /// `outcome` and is kept under `name` if that was a success.
    pub fn enroll(&mut self, name: String, system: S, outcome: Result<(), String>) -> (answer:
        Result<(), String>)
        requires
            old(self).wf(),
        ensures
            final(self).wf(),
            enrolled(old(self)@, name@, system, outcome, final(self)@, answer),
    {
        let ghost before = *self;
        match outcome {
            Ok(_) => {
                match self.find(&name) {
                    Some(i) => {
                        self.systems.set(i, system);
                        proof {
                            assert(self.names@ == before.names@);
                            assert forall|other: Seq<char>| self.slot_of(other) == before.slot_of(
                                other,
                            ) by {}
                            assert(self@ =~= before@.insert(name@, system));
                        }
                    },
                    None => {
                        self.names.push(name);
                        self.systems.push(system);
                        proof {
                            let at = before.names@.len() as int;
                            assert(self.names@[at]@ == name@);
                            assert forall|other: Seq<char>| other != name@ implies self.slot_of(
                                other,
                            ) == before.slot_of(other) by {
                                if before.slot_of(other).is_some() {
                                    let i = before.slot_of(other).unwrap();
                                    assert(self.names@[i] == before.names@[i]);
                                }
                                if self.slot_of(other).is_some() {
                                    let i = self.slot_of(other).unwrap();
                                    assert(self.names@[i] == before.names@[i]);
                                }
                            }
                            assert(self.slot_of(name@) == Some(at));
                            assert(self@ =~= before@.insert(name@, system));
                        }
                    },
                }
                Ok(())
            },
            Err(reason) => {
                let mut message = name;
                message.append(" add FAILED! ");
                message.append(reason.as_str());
                Err(message)
            },
        }
    }

    /// Concludes an unregistration: the system under `name` came out of its
    /// teardown with `outcome` and is dropped if that was a success.
    pub fn release(&mut self, name: String, outcome: Result<(), String>) -> (answer: Result<
        (),
        String,
    >)
        requires
            old(self).wf(),
            old(self)@.contains_key(name@),
        ensures
            final(self).wf(),
            released(old(self)@, name@, old(self)@[name@], outcome, final(self)@, answer),
    {
        let ghost before = *self;
        match outcome {
            Ok(_) => {
                match self.find(&name) {
                    Some(i) => {
                        self.names.remove(i);
                        self.systems.remove(i);
                        proof {
                            let gone = i as int;
                            assert forall|j: int| 0 <= j < self.names@.len() implies (
                            #[trigger] self.names@[j]) == before.names@[if j < gone {
                                j
                            } else {
                                j + 1
                            }] by {}
                            assert(self.wf());
                            assert forall|other: Seq<char>| other != name@ implies (
                            self.slot_of(other) is Some <==> before.slot_of(other) is Some) by {
                                if before.slot_of(other).is_some() {
                                    let j = before.slot_of(other).unwrap();
                                    let moved = if j < gone {
                                        j
                                    } else {
                                        j - 1
                                    };
                                    assert(self.names@[moved] == before.names@[j]);
                                }
                                if self.slot_of(other).is_some() {
                                    let j = self.slot_of(other).unwrap();
                                    assert(self.names@[j] == before.names@[if j < gone {
                                        j
                                    } else {
                                        j + 1
                                    }]);
                                }
                            }
                            assert(self.slot_of(name@) is None) by {
                                if self.slot_of(name@).is_some() {
                                    let j = self.slot_of(name@).unwrap();
                                    assert(self.names@[j] == before.names@[if j < gone {
                                        j
                                    } else {
                                        j + 1
                                    }]);
                                }
                            }
                            assert forall|other: Seq<char>|
                                other != name@ && before.slot_of(other) is Some implies self@[other]
                                == before@[other] by {
                                let j = before.slot_of(other).unwrap();
                                let moved = if j < gone {
                                    j
                                } else {
                                    j - 1
                                };
                                assert(self.names@[moved] == before.names@[j]);
                                let k = self.slot_of(other).unwrap();
                                assert(self.names@[k] == before.names@[if k < gone {
                                    k
                                } else {
                                    k + 1
                                }]);
                            }
                            assert(self@ =~= before@.remove(name@));
                        }
                    },
                    None => {},
                }
                Ok(())
            },
            Err(reason) => {
                let mut message = name;
                message.append(" removal FAILED! ");
                message.append(reason.as_str());
                proof {
                    assert(self@ =~= before@.insert(name@, before@[name@]));
                }
                Err(message)
            },
        }
    }

    /// Tears down the system registered as `name` and, if that succeeds,
    /// drops it. Fails where no system is registered under that name.
    pub fn remove_system_by_name(&mut self, name: String) -> (answer: Result<(), String>)
        requires
            old(self).wf(),
        ensures
            final(self).wf(),
            unregistered(old(self)@, name@, final(self)@, answer),
    {
        let ghost before = *self;
        match self.find(&name) {
            None => {
                let mut message = name;
                message.append(" not registered");
                Err(message)
            },
            Some(i) => {
                let outcome = self.systems[i].teardown();
                let ghost torn = self.systems@[i as int];
                proof {
                    assert(self.names@ == before.names@);
                    assert forall|other: Seq<char>| self.slot_of(other) == before.slot_of(other) by {}
                    assert(self@ =~= before@.insert(name@, torn));
                }
                let answer = self.release(name, outcome);
                proof {
                    assert(before@.insert(name@, torn).remove(name@) =~= before@.remove(name@));
                    assert(before@.insert(name@, torn).insert(name@, torn) =~= before@.insert(
                        name@,
                        torn,
                    ));
                    assert(released(before@, name@, torn, outcome, self@, answer));
                }
                answer
            },
        }
    }

    /// Tears down and drops the system that is registered under the name of
    /// `system`.
    pub fn remove_system(&mut self, system: &S) -> (answer: Result<(), String>)
        requires
            old(self).wf(),
        ensures
            final(self).wf(),
            exists|name: Seq<char>| #[trigger] unregistered(old(self)@, name, final(self)@, answer),
    {
        let name = system.get_name();
        let ghost wanted = name@;
        let ghost before = self@;
        let answer = self.remove_system_by_name(name);
        proof {
            assert(unregistered(before, wanted, self@, answer));
        }
        answer
    }

    /// Sets `system` up and, if that succeeds, keeps it under its name.
    pub fn add_system(&mut self, system: S) -> (answer: Result<(), String>)
        requires
            old(self).wf(),
        ensures
            final(self).wf(),
            registered(old(self)@, final(self)@, answer),
    {
        let mut system = system;
        let name = system.get_name();
        let outcome = system.setup();
        let ghost before = self@;
        let ghost wanted = name@;
        let answer = self.enroll(name, system, outcome);
        proof {
            assert(enrolled(before, wanted, system, outcome, self@, answer));
        }
        answer
    }
}

/// The owner of the engine's systems.
pub struct SystemManager<S: EngineSystem> {
    inner: SystemManagerData<S>,
}

impl<S: EngineSystem> View for SystemManager<S> {
    type V = Map<Seq<char>, S>;

    /// The registered systems by name.
    closed spec fn view(&self) -> Map<Seq<char>, S> {
        self.inner@
    }
}

impl<S: EngineSystem> SystemManager<S> {
    /// The manager keeps its systems in order.
    pub closed spec fn wf(&self) -> bool {
        self.inner.wf()
    }

    /// A manager without systems.
    pub fn new() -> (manager: Self)
        ensures
            manager.wf(),
            manager@ == Map::<Seq<char>, S>::empty(),
    {
        SystemManager { inner: SystemManagerData::new() }
    }

    /// Whether a system is registered as `name`.
    pub fn is_registered(&self, name: &String) -> (r: bool)
        requires
            self.wf(),
        ensures
            r == self@.contains_key(name@),
    {
        self.inner.is_registered(name)
    }

    /// Sets `system` up and, if that succeeds, keeps it under its name.
    pub fn register_system(&mut self, system: S) -> (answer: Result<(), String>)
        requires
            old(self).wf(),
        ensures
            final(self).wf(),
            registered(old(self)@, final(self)@, answer),
    {
        self.inner.add_system(system)
    }

    /// Tears down and drops the system that is registered under the name of
    /// `system`. Fails where no system is registered under that name.
    pub fn unregister_system(&mut self, system: &S) -> (answer: Result<(), String>)
        requires
            old(self).wf(),
        ensures
            final(self).wf(),
            exists|name: Seq<char>| #[trigger] unregistered(old(self)@, name, final(self)@, answer),
    {
        let ghost before = self.inner@;
        let answer = self.inner.remove_system(system);
        proof {
            let name = choose|name: Seq<char>| #[trigger]
                unregistered(before, name, self.inner@, answer);
            assert(unregistered(old(self)@, name, self@, answer));
        }
        answer
    }
}

} // verus!
