//! An insertion-ordered collection of uniquely named items with lookup by
//! name and by position, where two positions can be exchanged without the
//! two access paths drifting apart.

use vstd::prelude::*;

verus! {

use vstd::pervasive::VecAdditionalExecFns;

/// A swap of a position with itself is invisible: updating a sequence so
/// that position `i` is exchanged with itself gives the sequence back.
pub proof fn lemma_swap_with_self_is_identity<T>(s: Seq<T>, i: int)
    requires
        0 <= i < s.len(),
    ensures
        s.update(i, s[i]).update(i, s[i]) == s,
{
    assert(s.update(i, s[i]).update(i, s[i]) =~= s);
}

/// The capability an element type must provide: a stable display name.
/// The name must not change while the item is stored in a [`Lookup`].
pub trait Named {
    /// The name as a mathematical sequence of characters. Every
    /// implementation written in verified code overrides this to the value
    /// its `name` returns; the empty default only spares implementations
    /// that live outside the verifier from spelling out ghost code.
    open spec fn spec_name(&self) -> Seq<char> {
        Seq::<char>::empty()
    }

    /// The name of this item.
    fn name(&self) -> (r: &str)
        ensures
            r@ == self.spec_name(),
    ;
}

/// The ways an operation on a [`Lookup`] can fail.
#[derive(Debug, PartialEq, Eq)]
pub enum LookupError {
    /// A swap referenced a position outside the collection.
    InvalidIndex(usize),
    /// A swap referenced a name that no stored item carries.
    InvalidName(String),
    /// A push would have introduced a second item with an existing name.
    DuplicateName(String),
}

/// An insertion-ordered collection of named items together with a
/// name-to-position index.
///
/// The index is an association list kept in position order: the entry at
/// slot `p` records the name of the item at position `p` together with `p`
/// itself. Keeping the entries in position order means that two collections
/// holding equal items in the same order are also equal field by field.
#[derive(Debug, PartialEq)]
pub struct Lookup<T: Named> {
    index: Vec<(String, usize)>,
    items: Vec<T>,
}

impl<T: Named> View for Lookup<T> {
    type V = Seq<T>;

    closed spec fn view(&self) -> Seq<T> {
        self.items@
    }
}

impl<T: Named> Lookup<T> {
    /// Well-formedness: the index lists exactly the stored names, the entry
    /// at slot `p` maps the name of the item at position `p` to `p`, and no
    /// two items share a name.
    pub closed spec fn wf(&self) -> bool {
        &&& self.index@.len() == self.items@.len()
        &&& forall|p: int|
            0 <= p < self.items@.len() ==> (#[trigger] self.index@[p]).0@
                == self.items@[p].spec_name() && self.index@[p].1 == p
        &&& forall|p: int, q: int|
            0 <= p < self.items@.len() && 0 <= q < self.items@.len() && p != q
                ==> #[trigger] self.items@[p].spec_name()
                != #[trigger] self.items@[q].spec_name()
    }

    /// Whether some stored item carries the name `n`.
    pub open spec fn has_name(&self, n: Seq<char>) -> bool {
        exists|p: int| 0 <= p < self@.len() && #[trigger] self@[p].spec_name() == n
    }

    /// The position of the item named `n`; meaningful only when
    /// `has_name(n)` holds.
    pub open spec fn position_of(&self, n: Seq<char>) -> int {
        choose|p: int| 0 <= p < self@.len() && #[trigger] self@[p].spec_name() == n
    }

    /// Creates an empty collection.
    pub fn new() -> (r: Self)
        ensures
            r.wf(),
            r@ == Seq::<T>::empty(),
    {
        Lookup { index: Vec::new(), items: Vec::new() }
    }

    /// Scans the index for `name` and returns the recorded position.
    fn find(&self, name: &str) -> (r: Option<usize>)
        requires
            self.wf(),
        ensures
            match r {
                Some(p) => p < self@.len() && self@[p as int].spec_name() == name@,
                None => !self.has_name(name@),
            },
    {
        let n: usize = self.index.len();
        let mut k: usize = 0;
        while k < n
            invariant
                self.wf(),
                n == self.index@.len(),
                k <= n,
                forall|q: int| 0 <= q < k ==> #[trigger] self@[q].spec_name() != name@,
            decreases n - k,
        {
            if str_eq(self.index[k].0.as_str(), name) {
                return Some(self.index[k].1);
            }
            k += 1;
        }
        None
    }

    /// Every stored item can be found again under its own name: for the
    /// item at position `p`, its name is present and resolves back to `p`,
    /// since no other item may carry that name.
    pub proof fn lemma_name_resolves_to_position(&self, p: int)
        requires
            self.wf(),
            0 <= p < self@.len(),
        ensures
            self.has_name(self@[p].spec_name()),
            self.position_of(self@[p].spec_name()) == p,
    {
        assert(self.has_name(self@[p].spec_name()));
        let q: int = self.position_of(self@[p].spec_name());
        assert(0 <= q < self@.len() && self@[q].spec_name() == self@[p].spec_name());
        if q != p {
            assert(self@[q].spec_name() != self@[p].spec_name());
        }
    }

    /// The position currently recorded for `name`, if any stored item
    /// carries that name.
    pub fn position_of_name(&self, name: &str) -> (r: Option<usize>)
        requires
            self.wf(),
        ensures
            match r {
                Some(p) => self.has_name(name@) && p == self.position_of(name@),
                None => !self.has_name(name@),
            },
    {
        let r = self.find(name);
        proof {
            if let Some(p) = r {
                self.lemma_name_resolves_to_position(p as int);
            }
        }
        r
    }

    /// Returns the item carrying `name`, or nothing if no item does.
    pub fn get_by_name(&self, name: &str) -> (r: Option<&T>)
        requires
            self.wf(),
        ensures
            match r {
                Some(item) => {
                    &&& self.has_name(name@)
                    &&& *item == self@[self.position_of(name@)]
                    &&& item.spec_name() == name@
                },
                None => !self.has_name(name@),
            },
    {
        match self.find(name) {
            Some(p) => {
                proof {
                    self.lemma_name_resolves_to_position(p as int);
                }
                Some(&self.items[p])
            },
            None => None,
        }
    }

    /// Appends `item` at the end and records its name at the new last
    /// position. A name that is already present is rejected: the collection
    /// is left unchanged, the offered item is dropped, and the error names
    /// the duplicate.
    pub fn push(&mut self, item: T) -> (r: Result<(), LookupError>)
        requires
            old(self).wf(),
        ensures
            final(self).wf(),
            if old(self).has_name(item.spec_name()) {
                &&& r matches Err(LookupError::DuplicateName(n)) && n@ == item.spec_name()
                &&& *final(self) == *old(self)
            } else {
                &&& r == Ok::<(), LookupError>(())
                &&& final(self)@ == old(self)@.push(item)
                &&& final(self).has_name(item.spec_name())
                &&& final(self).position_of(item.spec_name()) == old(self)@.len()
            },
    {
        let name = item.name().to_owned();
        match self.find(name.as_str()) {
            Some(_) => Err(LookupError::DuplicateName(name)),
            None => {
                let ghost prior = *self;
                let p: usize = self.items.len();
                self.items.push(item);
                self.index.push((name, p));
                proof {
                    assert forall|a: int|
                        0 <= a < self.items@.len() implies (#[trigger] self.index@[a]).0@
                        == self.items@[a].spec_name() && self.index@[a].1 == a by {
                        if a < p {
                            assert(self.index@[a] == prior.index@[a]);
                            assert(self.items@[a] == prior.items@[a]);
                        }
                    }
                    assert forall|a: int, b: int|
                        0 <= a < self.items@.len() && 0 <= b < self.items@.len() && a != b
                        implies #[trigger] self.items@[a].spec_name()
                        != #[trigger] self.items@[b].spec_name() by {
                        if a == p && b < p {
                            assert(prior@[b].spec_name() != item.spec_name());
                        } else if b == p && a < p {
                            assert(prior@[a].spec_name() != item.spec_name());
                        }
                    }
                    self.lemma_name_resolves_to_position(p as int);
                }
                Ok(())
            },
        }
    }

    /// Returns the item at position `index`, or nothing if `index` is out
    /// of range.
    pub fn get_by_index(&self, index: usize) -> (r: Option<&T>)
        ensures
            match r {
                Some(item) => index < self@.len() && *item == self@[index as int],
                None => index >= self@.len(),
            },
    {
        if index < self.items.len() {
            Some(&self.items[index])
        } else {
            None
        }
    }

    /// Exchanges the items at the two valid positions `i1` and `i2` and
    /// rewrites the two index entries so each name maps to its new
    /// position again. Both containers change within this one call.
    fn do_swap(&mut self, i1: usize, i2: usize)
        requires
            old(self).wf(),
            i1 < old(self)@.len(),
            i2 < old(self)@.len(),
        ensures
            final(self).wf(),
            final(self)@ == old(self)@.update(i1 as int, old(self)@[i2 as int]).update(
                i2 as int,
                old(self)@[i1 as int],
            ),
    {
        if i1 == i2 {
            proof {
                lemma_swap_with_self_is_identity(self@, i1 as int);
            }
            return ;
        }
        vec_swap(&mut self.items, i1, i2);
        // Walk the two index entries to their new slots; only the empty
        // placeholder is freshly allocated, never a name.
        let mut entry: (String, usize) = (String::new(), 0);
        self.index.set_and_swap(i1, &mut entry);
        let mut entry: (String, usize) = (entry.0, i2);
        self.index.set_and_swap(i2, &mut entry);
        let entry: (String, usize) = (entry.0, i1);
        self.index.set(i1, entry);
        proof {
            let prior = *old(self);
            assert forall|a: int|
                0 <= a < self.items@.len() implies (#[trigger] self.index@[a]).0@
                == self.items@[a].spec_name() && self.index@[a].1 == a by {
                if a != i1 && a != i2 {
                    assert(self.index@[a] == prior.index@[a]);
                    assert(self.items@[a] == prior.items@[a]);
                }
            }
            assert forall|a: int, b: int|
                0 <= a < self.items@.len() && 0 <= b < self.items@.len() && a != b
                implies #[trigger] self.items@[a].spec_name()
                != #[trigger] self.items@[b].spec_name() by {
                let sa: int = if a == i1 { i2 as int } else if a == i2 { i1 as int } else { a };
                let sb: int = if b == i1 { i2 as int } else if b == i2 { i1 as int } else { b };
                assert(self.items@[a] == prior.items@[sa]);
                assert(self.items@[b] == prior.items@[sb]);
                assert(prior.items@[sa].spec_name() != prior.items@[sb].spec_name());
            }
        }
    }

    /// Exchanges the items at positions `i1` and `i2`, keeping name lookup
    /// consistent with the new order. An out-of-range position is reported
    /// (checking `i1` before `i2`) and the collection is left unchanged.
    pub fn swap_by_index(&mut self, i1: usize, i2: usize) -> (r: Result<(), LookupError>)
        requires
            old(self).wf(),
        ensures
            final(self).wf(),
            i1 >= old(self)@.len() ==> r == Err::<(), LookupError>(LookupError::InvalidIndex(i1))
                && *final(self) == *old(self),
            i1 < old(self)@.len() && i2 >= old(self)@.len() ==> r == Err::<(), LookupError>(
                LookupError::InvalidIndex(i2),
            ) && *final(self) == *old(self),
            i1 < old(self)@.len() && i2 < old(self)@.len() ==> r == Ok::<(), LookupError>(())
                && final(self)@ == old(self)@.update(i1 as int, old(self)@[i2 as int]).update(
                i2 as int,
                old(self)@[i1 as int],
            ) && final(self).position_of(old(self)@[i1 as int].spec_name()) == i2 as int
                && final(self).position_of(old(self)@[i2 as int].spec_name()) == i1 as int,
    {
        let n: usize = self.items.len();
        if i1 >= n {
            return Err(LookupError::InvalidIndex(i1));
        }
        if i2 >= n {
            return Err(LookupError::InvalidIndex(i2));
        }
        self.do_swap(i1, i2);
        proof {
            self.lemma_name_resolves_to_position(i1 as int);
            self.lemma_name_resolves_to_position(i2 as int);
        }
        Ok(())
    }

    /// Resolves both names to their positions and performs the same
    /// exchange as [`Self::swap_by_index`] would on those positions. An
    /// absent name is reported (checking `s1` before `s2`) and the
    /// collection is left unchanged; only the error path allocates a name.
    pub fn swap_by_name(&mut self, s1: &str, s2: &str) -> (r: Result<(), LookupError>)
        requires
            old(self).wf(),
        ensures
            final(self).wf(),
            !old(self).has_name(s1@) ==> (r matches Err(LookupError::InvalidName(n)) && n@ == s1@)
                && *final(self) == *old(self),
            old(self).has_name(s1@) && !old(self).has_name(s2@) ==> (r matches Err(
                LookupError::InvalidName(n),
            ) && n@ == s2@) && *final(self) == *old(self),
            old(self).has_name(s1@) && old(self).has_name(s2@) ==> r == Ok::<(), LookupError>(())
                && final(self)@ == old(self)@.update(
                old(self).position_of(s1@),
                old(self)@[old(self).position_of(s2@)],
            ).update(old(self).position_of(s2@), old(self)@[old(self).position_of(s1@)])
                && final(self).position_of(s1@) == old(self).position_of(s2@)
                && final(self).position_of(s2@) == old(self).position_of(s1@),
    {
        let i1: usize = match self.find(s1) {
            Some(p) => p,
            None => {
                return Err(LookupError::InvalidName(s1.to_owned()));
            },
        };
        let i2: usize = match self.find(s2) {
            Some(p) => p,
            None => {
                return Err(LookupError::InvalidName(s2.to_owned()));
            },
        };
        proof {
            self.lemma_name_resolves_to_position(i1 as int);
            self.lemma_name_resolves_to_position(i2 as int);
        }
        self.do_swap(i1, i2);
        proof {
            self.lemma_name_resolves_to_position(i1 as int);
            self.lemma_name_resolves_to_position(i2 as int);
        }
        Ok(())
    }
}

/// Relies on `slice::swap`: it exchanges the elements at the two given
/// positions and moves nothing else.
#[verifier::external_body]
fn vec_swap<T>(v: &mut Vec<T>, i: usize, j: usize)
    requires
        i < old(v)@.len(),
        j < old(v)@.len(),
    ensures
        final(v)@ == old(v)@.update(i as int, old(v)@[j as int]).update(
            j as int,
            old(v)@[i as int],
        ),
{
    v.swap(i, j);
}

/// Relies on `str`'s `PartialEq`: two string slices are equal exactly when
/// their character sequences are.
#[verifier::external_body]
fn str_eq(a: &str, b: &str) -> (r: bool)
    ensures
        r == (a@ == b@),
{
    a == b
}

} // verus!
