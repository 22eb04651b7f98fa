//! The registry of messaging channels, keyed by the name each channel
//! reports when it is registered.

use vstd::prelude::*;
use crate::text::{owned, str_eq};

verus! {

broadcast use vstd::string::group_string_axioms;

/// A messaging channel, implemented by the users of the registry.
pub trait Channel {
    fn name(&self) -> &str;

    fn is_enabled(&self) -> bool;
}

/// The channels after filing `c` under `n`: a channel already under `n`
/// is dropped, and `(n, c)` comes last.
pub open spec fn filed<C>(s: Seq<(Seq<char>, C)>, n: Seq<char>, c: C) -> Seq<(Seq<char>, C)> {
    if has_name(s, n) {
        s.remove(index_of(s, n)).push((n, c))
    } else {
        s.push((n, c))
    }
}

/// Position of the channel under `n`.
pub open spec fn index_of<C>(s: Seq<(Seq<char>, C)>, n: Seq<char>) -> int {
    choose|i: int| 0 <= i < s.len() && s[i].0 == n
}

/// Some channel is registered under `name`.
pub open spec fn has_name<C>(s: Seq<(Seq<char>, C)>, name: Seq<char>) -> bool {
    exists|i: int| 0 <= i < s.len() && #[trigger] s[i].0 == name
}

/// No two channels share a name.
pub open spec fn unique_names<C>(s: Seq<(Seq<char>, C)>) -> bool {
    forall|i: int, j: int| 0 <= i < j < s.len() ==> #[trigger] s[i].0 != #[trigger] s[j].0
}

/// Channels by name, in order of registration.
pub struct ChannelRegistry<C> {
    channels: Vec<(String, C)>,
}

impl<C: Channel> ChannelRegistry<C> {
    /// The registered channels with their names, in order of registration.
    pub closed spec fn entries(&self) -> Seq<(Seq<char>, C)> {
        self.channels@.map_values(|e: (String, C)| (e.0@, e.1))
    }

    pub open spec fn wf(&self) -> bool {
        unique_names(self.entries())
    }

    /// An empty registry.
    pub fn new() -> (r: Self)
        ensures
            r.wf(),
            r.entries() == Seq::<(Seq<char>, C)>::empty(),
    {
        let r = ChannelRegistry { channels: Vec::new() };
        assert(r.entries() =~= Seq::<(Seq<char>, C)>::empty());
        r
    }

    fn find(&self, name: &str) -> (r: Option<usize>)
        ensures
            match r {
                None => !has_name(self.entries(), name@),
                Some(i) => i < self.entries().len() && self.entries()[i as int].0 == name@,
            },
    {
        let mut i: usize = 0;
        while i < self.channels.len()
            invariant
                i <= self.channels@.len(),
                forall|j: int| 0 <= j < i ==> #[trigger] self.entries()[j].0 != name@,
            decreases self.channels@.len() - i,
        {
            if str_eq(self.channels[i].0.as_str(), name) {
                return Some(i);
            }
            i = i + 1;
        }
        None
    }

    proof fn lemma_remove(&self, i: int)
        requires
            self.wf(),
            0 <= i < self.entries().len(),
        ensures
            unique_names(self.entries().remove(i)),
            forall|j: int| 0 <= j < self.entries().remove(i).len() ==> #[trigger] self.entries().remove(i)[j].0 != self.entries()[i].0,
            self.channels@.remove(i).map_values(|e: (String, C)| (e.0@, e.1)) == self.entries().remove(i),
    {
        let s = self.entries();
        let t = s.remove(i);
        assert forall|a: int, b: int| 0 <= a < b < t.len() implies #[trigger] t[a].0 != #[trigger] t[b].0 by {
            let sa = if a < i { a } else { a + 1 };
            let sb = if b < i { b } else { b + 1 };
            assert(t[a] == s[sa]);
            assert(t[b] == s[sb]);
        }
        assert forall|j: int| 0 <= j < t.len() implies #[trigger] t[j].0 != s[i].0 by {
            let sj = if j < i { j } else { j + 1 };
            assert(t[j] == s[sj]);
        }
        assert(self.channels@.remove(i).map_values(|e: (String, C)| (e.0@, e.1)) =~= t);
    }

    /// Files `channel` under `name`, replacing a channel of the same name.
    pub fn register_named(&mut self, name: &str, channel: C) -> (r: &Self)
        requires
            old(self).wf(),
        ensures
            final(self).wf(),
            final(self).entries() == filed(old(self).entries(), name@, channel),
    {
        let ghost n = name@;
        match self.find(name) {
            Some(i) => {
                proof {
                    self.lemma_remove(i as int);
                    let k = index_of(old(self).entries(), n);
                    if k != i as int {
                        if k < i {
                            assert(old(self).entries()[k].0 != old(self).entries()[i as int].0);
                        } else {
                            assert(old(self).entries()[i as int].0 != old(self).entries()[k].0);
                        }
                    }
                }
                self.channels.remove(i);
            },
            None => {},
        }
        let ghost mid = self.entries();
        self.channels.push((owned(name), channel));
        proof {
            assert(self.entries() =~= mid.push((n, channel)));
            assert forall|a: int, b: int| 0 <= a < b < self.entries().len() implies #[trigger] self.entries()[a].0 != #[trigger] self.entries()[b].0 by {
                if b == mid.len() {
                    assert(self.entries()[a] == mid[a]);
                    if !has_name(old(self).entries(), n) {
                        assert(old(self).entries()[a].0 != n);
                    }
                } else {
                    assert(mid[a].0 != mid[b].0);
                }
            }
        }
        self
    }

    /// Registers `channel` under the name it reports, replacing a channel
    /// of the same name; see `register_named`.
    pub fn register(&mut self, channel: C) -> (r: &Self)
        requires
            old(self).wf(),
        ensures
            final(self).wf(),
            exists|n: Seq<char>| final(self).entries() == #[trigger] filed(old(self).entries(), n, channel),
    {
        let name = owned(channel.name());
        self.register_named(name.as_str(), channel)
    }

    /// The channel registered under `name`, if any.
    pub fn get(&self, name: &str) -> (r: Option<&C>)
        ensures
            match r {
                None => !has_name(self.entries(), name@),
                Some(c) => exists|i: int|
                    0 <= i < self.entries().len() && #[trigger] self.entries()[i].0 == name@ && self.entries()[i].1 == *c,
            },
    {
        match self.find(name) {
            Some(i) => Some(&self.channels[i].1),
            None => None,
        }
    }

    /// Names of the registered channels, in order of registration.
    pub fn list(&self) -> (r: Vec<String>)
        ensures
            r@.len() == self.entries().len(),
            forall|i: int| 0 <= i < r@.len() ==> #[trigger] r@[i]@ == self.entries()[i].0,
    {
        let mut r: Vec<String> = Vec::new();
        let mut i: usize = 0;
        while i < self.channels.len()
            invariant
                i <= self.channels@.len(),
                r@.len() == i,
                forall|j: int| 0 <= j < i ==> #[trigger] r@[j]@ == self.entries()[j].0,
            decreases self.channels@.len() - i,
        {
            r.push(self.channels[i].0.clone());
            i = i + 1;
        }
        r
    }

    /// Whether a channel is registered under `name`.
    pub fn is_registered(&self, name: &str) -> (r: bool)
        ensures
            r == has_name(self.entries(), name@),
    {
        self.find(name).is_some()
    }

    /// Whether the channel registered under `name` says it is enabled; an
    /// unknown name is not enabled. What a known channel says is its own
    /// affair.
    pub fn is_enabled(&self, name: &str) -> (r: bool)
        ensures
            r ==> has_name(self.entries(), name@),
    {
        match self.find(name) {
            Some(i) => self.channels[i].1.is_enabled(),
            None => false,
        }
    }

    /// Removes the channel registered under `name`; tells whether there was one.
    pub fn unregister(&mut self, name: &str) -> (r: bool)
        requires
            old(self).wf(),
        ensures
            final(self).wf(),
            r == has_name(old(self).entries(), name@),
            !r ==> final(self).entries() == old(self).entries(),
            r ==> exists|i: int|
                0 <= i < old(self).entries().len() && #[trigger] old(self).entries()[i].0 == name@
                    && final(self).entries() == old(self).entries().remove(i),
            !has_name(final(self).entries(), name@),
    {
        match self.find(name) {
            Some(i) => {
                proof {
                    self.lemma_remove(i as int);
                }
                self.channels.remove(i);
                true
            },
            None => false,
        }
    }
}

/// An empty channel registry.
pub fn channel_registry<C: Channel>() -> (r: ChannelRegistry<C>)
    ensures
        r.wf(),
        r.entries() == Seq::<(Seq<char>, C)>::empty(),
{
    ChannelRegistry::new()
}

} // verus!
