//! Console variables: named values that can be read and written as text.
use vstd::prelude::*;

verus! {

/// What writing to a console variable answers: an optional message on
/// success, or the reason for which the value was refused.
pub type ConsoleVarResult = Result<Option<String>, String>;

/// A value that can be read and written as text. What a variable makes of
/// a text written to it is its own affair.
pub trait ConsoleVar {
    /// Writes `value` to the variable.
    fn set(&mut self, value: String) -> ConsoleVarResult;

    /// The text that the variable shows.
    fn get(&self) -> String;
}

/// A console variable that holds any text.
#[derive(Debug)]
pub struct ConsoleVarString {
    value: String,
}

impl ConsoleVarString {
    /// The text that the variable shows.
    pub closed spec fn shown(&self) -> Seq<char> {
        self.value@
    }

    /// A variable that shows `value`.
    pub fn new(value: String) -> (var: ConsoleVarString)
        ensures
            var.shown() == value@,
    {
        ConsoleVarString { value }
    }
}

impl ConsoleVar for ConsoleVarString {
    /// Takes any text, without a message.
    fn set(&mut self, value: String) -> (outcome: ConsoleVarResult)
        ensures
            final(self).shown() == value@,
            outcome == Ok::<Option<String>, String>(None),
    {
        self.value = value;
        Ok(None)
    }

    fn get(&self) -> (text: String)
        ensures
            text@ == self.shown(),
    {
        self.value.clone()
    }
}

/// The console variables of a program, each under its name.
pub struct ConsoleContext {
    keys: Vec<String>,
    vars: Vec<ConsoleVarString>,
}

impl View for ConsoleContext {
    type V = Map<Seq<char>, ConsoleVarString>;

    /// The variables by name.
    closed spec fn view(&self) -> Map<Seq<char>, ConsoleVarString> {
        Map::new(
            |key: Seq<char>| self.slot_of(key).is_some(),
            |key: Seq<char>| self.vars@[self.slot_of(key).unwrap()],
        )
    }
}

impl ConsoleContext {
    /// Where the variable named `key` is kept, if there is one.
    closed spec fn slot_of(&self, key: Seq<char>) -> Option<int> {
        if exists|i: int| 0 <= i < self.keys@.len() && (#[trigger] self.keys@[i])@ == key {
            Some(choose|i: int| 0 <= i < self.keys@.len() && (#[trigger] self.keys@[i])@ == key)
        } else {
            None
        }
    }

    /// Every name has its variable, and no name is kept twice.
    pub closed spec fn wf(&self) -> bool {
        &&& self.keys@.len() == self.vars@.len()
        &&& forall|i: int, j: int|
            0 <= i < self.keys@.len() && 0 <= j < self.keys@.len() && (#[trigger] self.keys@[i])@
                == (#[trigger] self.keys@[j])@ ==> i == j
    }

    /// A context without variables.
    pub fn new() -> (context: ConsoleContext)
        ensures
            context.wf(),
            context@ == Map::<Seq<char>, ConsoleVarString>::empty(),
    {
        let context = ConsoleContext { keys: Vec::new(), vars: Vec::new() };
        assert(context@ =~= Map::<Seq<char>, ConsoleVarString>::empty());
        context
    }

    /// The place of the variable named `key`.
    fn find(&self, key: &str) -> (found: Option<usize>)
        requires
            self.wf(),
        ensures
            found matches Some(i) ==> i < self.keys@.len() && self.keys@[i as int]@ == key@
                && self.slot_of(key@) == Some(i as int),
            found is None ==> self.slot_of(key@) is None,
    {
        let wanted = key.to_owned();
        let mut i: usize = 0;
        while i < self.keys.len()
            invariant
                i <= self.keys@.len(),
                self.wf(),
                wanted@ == key@,
                forall|j: int| 0 <= j < i ==> (#[trigger] self.keys@[j])@ != key@,
            decreases self.keys@.len() - i,
        {
            if self.keys[i] == wanted {
                return Some(i);
            }
            i += 1;
        }
        None
    }

    /// The text shown by the variable named `key`, if there is one.
    pub fn query_var(&self, key: &str) -> (text: Option<String>)
        requires
            self.wf(),
        ensures
            self@.contains_key(key@) ==> (text matches Some(shown) && shown@ == self@[key@].shown()),
            !self@.contains_key(key@) ==> text is None,
    {
        match self.find(key) {
            None => None,
            Some(i) => Some(self.vars[i].get()),
        }
    }

    /// Writes `val` to the variable named `key` and hands back its answer.
    /// Where there is no such variable, nothing changes and nothing is
    /// handed back.
    pub fn write_var(&mut self, key: &str, val: &str) -> (answer: Option<ConsoleVarResult>)
        requires
            old(self).wf(),
        ensures
            final(self).wf(),
            final(self)@.dom() == old(self)@.dom(),
            forall|other: Seq<char>|
                other != key@ && old(self)@.contains_key(other) ==> final(self)@[other] == old(
                    self,
                )@[other],
            old(self)@.contains_key(key@) ==> answer == Some(Ok::<Option<String>, String>(None))
                && final(self)@[key@].shown() == val@,
            !old(self)@.contains_key(key@) ==> answer is None && final(self)@ == old(self)@,
    {
        match self.find(key) {
            None => None,
            Some(i) => {
                let ghost before = *self;
                let outcome = self.vars[i].set(val.to_owned());
                proof {
                    assert(self.keys@ == before.keys@);
                    assert forall|other: Seq<char>| self.slot_of(other) == before.slot_of(other) by {}
                    assert(self@.dom() =~= before@.dom());
                }
                Some(outcome)
            },
        }
    }

    /// Puts `var` under the name `key`. A variable that was under that name
    /// before is replaced.
    pub fn add_var(&mut self, key: &str, var: ConsoleVarString) -> (context: &mut Self)
        requires
            old(self).wf(),
        ensures
            context.wf(),
            context@ == old(self)@.insert(key@, var),
            *final(self) == *final(context),
    {
        let ghost before = *self;
        match self.find(key) {
            Some(i) => {
                self.vars.set(i, var);
                proof {
                    assert(self.keys@ == before.keys@);
                    assert forall|other: Seq<char>| self.slot_of(other) == before.slot_of(other) by {}
                    assert(self@ =~= before@.insert(key@, var));
                }
            },
            None => {
                self.keys.push(key.to_owned());
                self.vars.push(var);
                proof {
                    let at = before.keys@.len() as int;
                    assert(self.keys@[at]@ == key@);
                    assert forall|other: Seq<char>| other != key@ implies self.slot_of(other)
                        == before.slot_of(other) by {
                        if before.slot_of(other).is_some() {
                            let i = before.slot_of(other).unwrap();
                            assert(self.keys@[i] == before.keys@[i]);
                        }
                        if self.slot_of(other).is_some() {
                            let i = self.slot_of(other).unwrap();
                            assert(self.keys@[i] == before.keys@[i]);
                        }
                    }
                    assert(self.slot_of(key@) == Some(at));
                    assert(self@ =~= before@.insert(key@, var));
                }
            },
        }
        self
    }
}

impl Default for ConsoleContext {
    fn default() -> (context: ConsoleContext)
        ensures
            context.wf(),
            context@ == Map::<Seq<char>, ConsoleVarString>::empty(),
    {
        ConsoleContext::new()
    }
}

} // verus!
