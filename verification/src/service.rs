//! A service: a name and the handlers of its methods, by method name.

use crate::keyed::key_index;
use crate::keyed::lemma_key_index_is;
use crate::keyed::put;
use crate::keyed::value_of;
use vstd::prelude::*;
use vstd::string::StringExecFns;

verus! {

/// The methods of a service as name and handler.
pub open spec fn named<H>(methods: Seq<(String, H)>) -> Seq<(Seq<char>, H)> {
    Seq::new(methods.len(), |i: int| (methods[i].0@, methods[i].1))
}

pub struct Service<H> {
    name: String,
    methods: Vec<(String, H)>,
}

impl<H> Service<H> {
    /// The name of the service.
    pub closed spec fn name(self) -> Seq<char> {
        self.name@
    }

    /// The methods that were added, each name with its handler.
    pub closed spec fn methods(self) -> Seq<(Seq<char>, H)> {
        named(self.methods@)
    }

    /// A service without methods.
    pub fn new(name: &str) -> (service: Self)
        ensures
            service.name() == name@,
            service.methods() == Seq::<(Seq<char>, H)>::empty(),
    {
        let service = Self { name: String::from_str(name), methods: Vec::new() };
        assert(named(service.methods@) =~= Seq::<(Seq<char>, H)>::empty());
        service
    }

    #[inline]
    pub fn service_name(&self) -> (name: &String)
        ensures
            name@ == self.name(),
    {
        &self.name
    }

    /// The place of the first method with the name `k`, if there is one.
    fn find(&self, k: &str) -> (r: Option<usize>)
        ensures
            match r {
                Some(i) => key_index(self.methods(), k@) == Some(i as nat) && i
                    < self.methods@.len(),
                None => key_index(self.methods(), k@) is None,
            },
    {
        let key = String::from_str(k);
        let mut i: usize = 0;
        while i < self.methods.len()
            invariant
                i <= self.methods@.len(),
                key@ == k@,
                forall|j: int| 0 <= j < i ==> named(self.methods@)[j].0 != k@,
            decreases self.methods@.len() - i,
        {
            if self.methods[i].0 == key {
                proof {
                    lemma_key_index_is(named(self.methods@), k@, i as nat);
                }
                return Some(i);
            }
            i = i + 1;
        }
        proof {
            lemma_key_index_is(named(self.methods@), k@, i as nat);
        }
        None
    }

    /// Gives the method `method_name` the handler `handler`.  A handler
    /// that the method had before is replaced.
    #[inline]
    pub fn add_method(&mut self, method_name: &str, handler: H)
        ensures
            final(self).name() == old(self).name(),
            final(self).methods() == put(old(self).methods(), method_name@, handler),
    {
        match self.find(method_name) {
            Some(i) => {
                self.methods.set(i, (String::from_str(method_name), handler));
            },
            None => {
                self.methods.push((String::from_str(method_name), handler));
            },
        }
        assert(named(self.methods@) =~= put(named(old(self).methods@), method_name@, handler));
    }

    /// The handler of the method `method_name`, if the service has it.
    #[inline]
    pub fn method(&self, method_name: &String) -> (r: Option<&H>)
        ensures
            match r {
                Some(handler) => value_of(self.methods(), method_name@) == Some(*handler),
                None => value_of(self.methods(), method_name@) is None,
            },
    {
        match self.find(method_name.as_str()) {
            Some(i) => Some(&self.methods[i].1),
            None => None,
        }
    }
}

} // verus!
