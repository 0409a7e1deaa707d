//! Dictionary from names to dense 32-bit keys, backed by `lasso::Rodeo`.
//!
//! Names are byte strings; each byte is stored as the character of the same
//! code point, so distinct byte strings stay distinct and no byte is lost.
use vstd::prelude::*;

verus! {

#[verifier::external_type_specification]
#[verifier::external_body]
#[verifier::reject_recursive_types(K)]
#[verifier::reject_recursive_types(S)]
pub struct ExRodeo<K, S>(lasso::Rodeo<K, S>);

#[verifier::external_type_specification]
#[verifier::external_body]
pub struct ExSpur(lasso::Spur);

/// The strings held by a rodeo, in the order of their keys.
pub uninterp spec fn rodeo_strings(r: lasso::Rodeo) -> Seq<Seq<char>>;

/// Each byte read as the character of the same code point.
pub open spec fn latin1(b: Seq<u8>) -> Seq<char> {
    b.map_values(|x: u8| x as char)
}

/// Relies on `lasso::Rodeo::new`: a fresh rodeo holds no string.
#[verifier::external_body]
fn rodeo_new() -> (r: lasso::Rodeo)
    ensures
        rodeo_strings(r) == Seq::<Seq<char>>::empty(),
{
    lasso::Rodeo::new()
}

/// Relies on `lasso::Rodeo::get_or_intern`: a string already held keeps its
/// key and nothing changes; a new one is pushed and its key is the former
/// count of strings (`Spur::into_usize` gives that index back). A new string
/// panics only when the key space (`u32::MAX - 1` keys) is used up.
#[verifier::external_body]
fn rodeo_get_or_intern(r: &mut lasso::Rodeo, name: &[u8]) -> (k: usize)
    requires
        rodeo_strings(*old(r)).contains(latin1(name@)) || rodeo_strings(*old(r)).len() < u32::MAX,
    ensures
        rodeo_strings(*old(r)).contains(latin1(name@)) ==> {
            &&& rodeo_strings(*final(r)) == rodeo_strings(*old(r))
            &&& k < rodeo_strings(*old(r)).len()
            &&& rodeo_strings(*old(r))[k as int] == latin1(name@)
        },
        !rodeo_strings(*old(r)).contains(latin1(name@)) ==> {
            &&& rodeo_strings(*final(r)) == rodeo_strings(*old(r)).push(latin1(name@))
            &&& k == rodeo_strings(*old(r)).len()
        },
{
    let text: String = name.iter().map(|&b| char::from(b)).collect();
    lasso::Key::into_usize(r.get_or_intern(text))
}

/// Relies on `lasso::Rodeo::resolve`: the string stored under the key whose
/// index is `k` (`Spur::try_from_usize` builds that key for `k < u32::MAX`).
#[verifier::external_body]
fn rodeo_resolve(r: &lasso::Rodeo, k: usize) -> (s: &str)
    requires
        k < rodeo_strings(*r).len(),
        k < u32::MAX,
    ensures
        s@ == rodeo_strings(*r)[k as int],
{
    let key: lasso::Spur = lasso::Key::try_from_usize(k).unwrap();
    r.resolve(&key)
}

/// Relies on `lasso::Rodeo::len`: the number of strings held.
#[verifier::external_body]
fn rodeo_len(r: &lasso::Rodeo) -> (n: usize)
    ensures
        n == rodeo_strings(*r).len(),
{
    r.len()
}

/// A compact key standing for an interned name.
#[derive(Clone, Copy, Debug, PartialEq, Eq, Hash, Structural)]
pub struct IStr {
    pub index: u32,
}

/// The key that `names` gives to `s` (meaningful when `names` holds `s`).
pub open spec fn key_in(names: Seq<Seq<char>>, s: Seq<char>) -> IStr {
    IStr { index: names.index_of(s) as u32 }
}

/// `new` holds every name of `old` under the same key, and maybe more.
pub open spec fn extends(new: Seq<Seq<char>>, old: Seq<Seq<char>>) -> bool {
    &&& old.len() <= new.len()
    &&& new.subrange(0, old.len() as int) == old
}

/// Growing a dictionary keeps the keys it has given out.
pub proof fn lemma_key_stable(old: Seq<Seq<char>>, new: Seq<Seq<char>>, x: Seq<char>)
    requires
        extends(new, old),
        new.no_duplicates(),
        old.contains(x),
    ensures
        new.contains(x),
        key_in(old, x) == key_in(new, x),
{
    let i = old.index_of(x);
    assert(old[i] == x);
    assert(new[i] == new.subrange(0, old.len() as int)[i]);
    assert(new.contains(x));
    let j = new.index_of(x);
    assert(new[j] == x);
}

pub proof fn lemma_extends_trans(a: Seq<Seq<char>>, b: Seq<Seq<char>>, c: Seq<Seq<char>>)
    requires
        extends(b, a),
        extends(c, b),
    ensures
        extends(c, a),
{
    assert(c.subrange(0, a.len() as int) =~= b.subrange(0, a.len() as int));
}

/// A process-independent name dictionary: keys are handed out densely, in the
/// order in which names are first seen.
pub struct Interner {
    rodeo: lasso::Rodeo,
}

impl View for Interner {
    type V = Seq<Seq<char>>;

    /// The names held, indexed by key.
    closed spec fn view(&self) -> Seq<Seq<char>> {
        rodeo_strings(self.rodeo)
    }
}

impl Interner {
    pub open spec fn wf(&self) -> bool {
        &&& self@.no_duplicates()
        &&& self@.len() <= u32::MAX
    }

    /// The key of a name that the dictionary holds.
    pub open spec fn key_of(&self, s: Seq<u8>) -> IStr {
        key_in(self@, latin1(s))
    }

    pub fn new() -> (r: Interner)
        ensures
            r.wf(),
            r@ == Seq::<Seq<char>>::empty(),
    {
        Interner { rodeo: rodeo_new() }
    }

    /// Number of distinct names held.
    pub fn len(&self) -> (n: usize)
        ensures
            n == self@.len(),
    {
        rodeo_len(&self.rodeo)
    }

    /// Returns the key of `name`, adding it first when it is new. A held name
    /// keeps its key; a new one gets the next free key.
    pub fn intern(&mut self, name: &[u8]) -> (k: IStr)
        requires
            old(self).wf(),
            old(self)@.contains(latin1(name@)) || old(self)@.len() < u32::MAX,
        ensures
            final(self).wf(),
            extends(final(self)@, old(self)@),
            old(self)@.contains(latin1(name@)) ==> final(self)@ == old(self)@,
            !old(self)@.contains(latin1(name@)) ==> final(self)@ == old(self)@.push(latin1(name@)),
            final(self)@.contains(latin1(name@)),
            k == final(self).key_of(name@),
            k.index < final(self)@.len(),
            final(self)@[k.index as int] == latin1(name@),
    {
        let ghost before = self@;
        let k = rodeo_get_or_intern(&mut self.rodeo, name);
        proof {
            let after = self@;
            assert(after[k as int] == latin1(name@));
            if !before.contains(latin1(name@)) {
                assert forall|i: int, j: int|
                    0 <= i < after.len() && 0 <= j < after.len() && i != j
                    implies after[i] != after[j] by {
                    if i == k as int {
                        assert(before[j] == after[j]);
                    } else if j == k as int {
                        assert(before[i] == after[i]);
                    } else {
                        assert(before[i] == after[i]);
                        assert(before[j] == after[j]);
                    }
                }
            }
            assert(after.contains(latin1(name@)));
            assert(after.subrange(0, before.len() as int) =~= before);
            let j = after.index_of(latin1(name@));
            assert(after[j] == latin1(name@));
        }
        IStr { index: k as u32 }
    }

    /// The name stored under `key`, one character per byte.
    pub fn resolve(&self, key: IStr) -> (s: &str)
        requires
            self.wf(),
            key.index < self@.len(),
        ensures
            s@ == self@[key.index as int],
    {
        rodeo_resolve(&self.rodeo, key.index as usize)
    }
}

} // verus!
