use vstd::prelude::*;
use crate::word::Word;

verus! {

/// One record of the storage journal: a key that has been touched, and the
/// value it held when last written (zero if only ever read).
#[derive(Clone, Copy, Debug, PartialEq, Eq, Structural)]
pub struct Slot {
    pub key: Word,
    pub value: Word,
}

/// The value the journal gives a key: the latest record wins, and a key
/// without a record holds zero.
pub open spec fn lookup(s: Seq<Slot>, k: nat) -> nat
    decreases s.len(),
{
    if s.len() == 0 {
        0
    } else if s.last().key@ == k {
        s.last().value@
    } else {
        lookup(s.drop_last(), k)
    }
}

/// Whether the key has been touched — read or written — in this frame.
pub open spec fn touched(s: Seq<Slot>, k: nat) -> bool
    decreases s.len(),
{
    if s.len() == 0 {
        false
    } else {
        s.last().key@ == k || touched(s.drop_last(), k)
    }
}

/// A key never touched holds zero.
pub proof fn lemma_untouched_is_zero(s: Seq<Slot>, k: nat)
    requires
        !touched(s, k),
    ensures
        lookup(s, k) == 0,
    decreases s.len(),
{
    if s.len() > 0 {
        lemma_untouched_is_zero(s.drop_last(), k);
    }
}

/// Persistent key/value store of one frame, with warm/cold tracking: a key
/// is warm exactly when some record of the journal names it. The view is
/// the journal, oldest record first.
pub struct Storage {
    slots: Vec<Slot>,
}

impl View for Storage {
    type V = Seq<Slot>;

    closed spec fn view(&self) -> Seq<Slot> {
        self.slots@
    }
}

impl Storage {
    pub fn new() -> (r: Self)
        ensures
            r@.len() == 0,
    {
        Storage { slots: Vec::new() }
    }

    /// Scans the journal backwards for the latest record of the key.
    fn find(&self, key: &Word) -> (r: Option<Word>)
        ensures
            r is Some <==> touched(self@, key@),
            r matches Some(w) ==> w@ == lookup(self@, key@),
    {
        let mut i: usize = self.slots.len();
        proof {
            assert(self@.take(i as int) =~= self@);
        }
        while i > 0
            invariant
                i <= self@.len(),
                touched(self@, key@) == touched(self@.take(i as int), key@),
                lookup(self@, key@) == lookup(self@.take(i as int), key@),
            decreases i,
        {
            let s = self.slots[i - 1];
            proof {
                assert(self@.take(i as int).last() == self@[i - 1]);
                assert(self@.take(i as int).drop_last() =~= self@.take(i - 1));
            }
            if s.key.eq_val(key) {
                return Some(s.value);
            }
            i = i - 1;
        }
        proof {
            assert(self@.take(0) =~= Seq::<Slot>::empty());
        }
        None
    }

    /// Whether the key is warm, without touching it.
    pub fn is_warm(&self, key: &Word) -> (r: bool)
        ensures
            r == touched(self@, key@),
    {
        self.find(key).is_some()
    }

    /// The key's current value, without touching it.
    pub fn get(&self, key: &Word) -> (r: Word)
        ensures
            r@ == lookup(self@, key@),
    {
        match self.find(key) {
            Some(w) => w,
            None => {
                proof {
                    lemma_untouched_is_zero(self@, key@);
                }
                Word::zero()
            },
        }
    }

    /// Reads the key's value and marks the key warm. Returns whether the key
    /// was already warm, and the value.
    pub fn load(&mut self, key: &Word) -> (r: (bool, Word))
        ensures
            r.0 == touched(old(self)@, key@),
            r.1@ == lookup(old(self)@, key@),
            touched(final(self)@, key@),
            forall|k: nat| touched(old(self)@, k) ==> touched(final(self)@, k),
            forall|k: nat| touched(final(self)@, k) ==> touched(old(self)@, k) || k == key@,
            forall|k: nat| lookup(final(self)@, k) == lookup(old(self)@, k),
    {
        match self.find(key) {
            Some(w) => (true, w),
            None => {
                proof {
                    lemma_untouched_is_zero(self@, key@);
                }
                self.slots.push(Slot { key: *key, value: Word::zero() });
                proof {
                    assert(final(self)@.drop_last() =~= old(self)@);
                }
                (false, Word::zero())
            },
        }
    }

    /// Writes the key's value and marks the key warm. Returns whether the
    /// key was already warm, and the previous value.
    pub fn store(&mut self, key: &Word, value: &Word) -> (r: (bool, Word))
        ensures
            r.0 == touched(old(self)@, key@),
            r.1@ == lookup(old(self)@, key@),
            touched(final(self)@, key@),
            lookup(final(self)@, key@) == value@,
            forall|k: nat| touched(old(self)@, k) ==> touched(final(self)@, k),
            forall|k: nat| touched(final(self)@, k) ==> touched(old(self)@, k) || k == key@,
            forall|k: nat| k != key@ ==> lookup(final(self)@, k) == lookup(old(self)@, k),
    {
        let found = self.find(key);
        let warm = match found {
            Some(_) => true,
            None => false,
        };
        let prev = match found {
            Some(w) => w,
            None => {
                proof {
                    lemma_untouched_is_zero(self@, key@);
                }
                Word::zero()
            },
        };
        self.slots.push(Slot { key: *key, value: *value });
        proof {
            assert(final(self)@.drop_last() =~= old(self)@);
        }
        (warm, prev)
    }
}

} // verus!
