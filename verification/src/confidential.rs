//! A key-value store that encrypts all content with Deoxys-II.
//!
//! Keys are sealed under a fixed all-zero nonce so that equal plaintext keys
//! map to equal stored keys; values are sealed under the same nonce.  The
//! inner store only ever sees sealed bytes.

use vstd::prelude::*;

verus! {

/// Length of an AEAD key.
pub const KEY_SIZE: usize = 32;

/// Length of an AEAD nonce.
pub const NONCE_SIZE: usize = 15;

/// Length of an AEAD authentication tag.
pub const TAG_SIZE: usize = 16;

/// What sealing produces; named after the calls below.  Sealing is
/// deterministic in the key, nonce, plaintext and additional data.
pub uninterp spec fn sealed_of(
    key: Seq<u8>,
    nonce: Seq<u8>,
    plaintext: Seq<u8>,
    ad: Seq<u8>,
) -> Seq<u8>;

/// Relies on `deoxys::DeoxysII256` (`KeyInit::new`, then `Aead::encrypt`):
/// Deoxys-II-256-128 sealing is a deterministic function of key, nonce,
/// plaintext and additional data, and appends a 16-byte tag.  For a fixed
/// key, nonce and additional data, sealing is injective in the plaintext
/// (decryption recovers it), so no other plaintext seals to this result.
/// Encrypting into a fresh buffer cannot fail.
#[verifier::external_body]
fn seal_bytes(key: &Vec<u8>, nonce: &Vec<u8>, plaintext: &Vec<u8>, ad: &Vec<u8>) -> (r: Vec<u8>)
    requires
        key@.len() == KEY_SIZE,
        nonce@.len() == NONCE_SIZE,
    ensures
        r@ == sealed_of(key@, nonce@, plaintext@, ad@),
        r@.len() == plaintext@.len() + TAG_SIZE,
        forall|q: Seq<u8>| sealed_of(key@, nonce@, q, ad@) == r@ ==> q == plaintext@,
{
    let mut key_arr = [0u8; 32];
    key_arr.copy_from_slice(key);
    let mut nonce_arr = [0u8; 15];
    nonce_arr.copy_from_slice(nonce);
    let cipher = <deoxys::DeoxysII256 as deoxys::KeyInit>::new((&key_arr).into());
    deoxys::aead::Aead::encrypt(
        &cipher,
        (&nonce_arr).into(),
        deoxys::aead::Payload { msg: plaintext, aad: ad },
    ).unwrap()
}

/// Relies on `deoxys::DeoxysII256` (`KeyInit::new`, then `Aead::decrypt`):
/// opening returns the unique plaintext whose sealing under the same key,
/// nonce and additional data is the ciphertext, and fails on anything that
/// was not sealed that way.
#[verifier::external_body]
fn open_bytes(key: &Vec<u8>, nonce: &Vec<u8>, ciphertext: &Vec<u8>, ad: &Vec<u8>) -> (r: Option<
    Vec<u8>,
>)
    requires
        key@.len() == KEY_SIZE,
        nonce@.len() == NONCE_SIZE,
    ensures
        r matches Some(p) ==> ciphertext@ == sealed_of(key@, nonce@, p@, ad@),
        r matches Some(p) ==> forall|q: Seq<u8>|
            ciphertext@ == sealed_of(key@, nonce@, q, ad@) ==> q == p@,
        r is None ==> forall|p: Seq<u8>| ciphertext@ != sealed_of(key@, nonce@, p, ad@),
{
    let mut key_arr = [0u8; 32];
    key_arr.copy_from_slice(key);
    let mut nonce_arr = [0u8; 15];
    nonce_arr.copy_from_slice(nonce);
    let cipher = <deoxys::DeoxysII256 as deoxys::KeyInit>::new((&key_arr).into());
    deoxys::aead::Aead::decrypt(
        &cipher,
        (&nonce_arr).into(),
        deoxys::aead::Payload { msg: ciphertext, aad: ad },
    ).ok()
}

/// A plain key-value store interface the runtime hands to modules; users
/// supply the implementation.
pub trait Store {
    /// The store's contents as a map from keys to values.
    spec fn view(&self) -> Map<Seq<u8>, Seq<u8>>;

    fn get(&self, key: &[u8]) -> (r: Option<Vec<u8>>)
        ensures
            match r {
                Some(v) => self.view().contains_key(key@) && self.view()[key@] == v@,
                None => !self.view().contains_key(key@),
            },
    ;

    fn insert(&mut self, key: &[u8], value: &[u8])
        ensures
            final(self).view() == old(self).view().insert(key@, value@),
    ;

    fn remove(&mut self, key: &[u8])
        ensures
            final(self).view() == old(self).view().remove(key@),
    ;
}

/// A signing/encryption keypair as handed out by the key manager; the secret
/// part doubles as the storage AEAD key.
pub struct KeyPair {
    pub pk: Vec<u8>,
    pub sk: Vec<u8>,
}

/// A key-value store that seals every key and value before handing them to
/// the inner store.
pub struct ConfidentialStore<S: Store> {
    pub inner: S,
    pub keypair: KeyPair,
    pub key: Vec<u8>,
}

/// The all-zero nonce used for deterministic sealing.
pub open spec fn zero_nonce() -> Seq<u8> {
    Seq::new(15, |i: int| 0u8)
}

/// The sealed form of a plaintext key.
pub open spec fn sealed_key(aead_key: Seq<u8>, key: Seq<u8>) -> Seq<u8> {
    sealed_of(aead_key, zero_nonce(), key, Seq::empty())
}

/// The sealed form of a plaintext value.
pub open spec fn sealed_value(aead_key: Seq<u8>, value: Seq<u8>) -> Seq<u8> {
    sealed_of(aead_key, zero_nonce(), value, Seq::empty())
}

fn make_zero_nonce() -> (r: Vec<u8>)
    ensures
        r@ =~= zero_nonce(),
{
    let mut out: Vec<u8> = Vec::new();
    let mut i: usize = 0;
    while i < 15
        invariant
            i <= 15,
            out@.len() == i,
            forall|j: int| 0 <= j < i ==> out@[j] == 0u8,
        decreases 15 - i,
    {
        out.push(0);
        i = i + 1;
    }
    out
}

/// Every value of the map is something sealed under `aead_key`.
pub open spec fn all_sealed(aead_key: Seq<u8>, m: Map<Seq<u8>, Seq<u8>>) -> bool {
    forall|k: Seq<u8>|
        #[trigger] m.contains_key(k) ==> exists|p: Seq<u8>| m[k] == #[trigger] sealed_value(
            aead_key,
            p,
        )
}

proof fn lemma_all_sealed_insert(aead_key: Seq<u8>, m: Map<Seq<u8>, Seq<u8>>, k: Seq<u8>, p: Seq<u8>)
    requires
        all_sealed(aead_key, m),
    ensures
        all_sealed(aead_key, m.insert(k, sealed_value(aead_key, p))),
{
    let m2 = m.insert(k, sealed_value(aead_key, p));
    assert forall|k2: Seq<u8>| #[trigger] m2.contains_key(k2) implies exists|q: Seq<u8>|
        m2[k2] == #[trigger] sealed_value(aead_key, q) by {
        if k2 == k {
            assert(m2[k2] == sealed_value(aead_key, p));
        } else {
            assert(m.contains_key(k2));
            let q = choose|q: Seq<u8>| m[k2] == #[trigger] sealed_value(aead_key, q);
            assert(m2[k2] == sealed_value(aead_key, q));
        }
    }
}

proof fn lemma_all_sealed_remove(aead_key: Seq<u8>, m: Map<Seq<u8>, Seq<u8>>, k: Seq<u8>)
    requires
        all_sealed(aead_key, m),
    ensures
        all_sealed(aead_key, m.remove(k)),
{
    let m2 = m.remove(k);
    assert forall|k2: Seq<u8>| #[trigger] m2.contains_key(k2) implies exists|q: Seq<u8>|
        m2[k2] == #[trigger] sealed_value(aead_key, q) by {
        assert(m.contains_key(k2));
        let q = choose|q: Seq<u8>| m[k2] == #[trigger] sealed_value(aead_key, q);
        assert(m2[k2] == sealed_value(aead_key, q));
    }
}

impl<S: Store> ConfidentialStore<S> {
    /// The store is usable: the AEAD key has the right size and matches the
    /// keypair's secret part, and the inner store holds only sealed values.
    pub open spec fn wf(&self) -> bool {
        &&& self.key@.len() == 32
        &&& self.key@ == self.keypair.sk@
        &&& all_sealed(self.key@, self.inner.view())
    }

    /// The sealed contents this store has handed to the inner store.
    pub open spec fn inner_view(&self) -> Map<Seq<u8>, Seq<u8>> {
        self.inner.view()
    }

    /// The AEAD key in use.
    pub open spec fn aead_key(&self) -> Seq<u8> {
        self.key@
    }

    /// Creates a new confidential store over `inner` with the given
    /// key-manager keypair, whose secret part is the storage key.
    pub fn new_with_id(inner: S, keypair: KeyPair) -> (r: ConfidentialStore<S>)
        requires
            keypair.sk@.len() == 32,
            all_sealed(keypair.sk@, inner.view()),
        ensures
            r.wf(),
            r.aead_key() == keypair.sk@,
            r.inner_view() == inner.view(),
    {
        let key = clone_bytes(&keypair.sk);
        ConfidentialStore { inner, keypair, key }
    }

    /// Seals a plaintext key under the fixed zero nonce, so equal keys seal
    /// equally; returns the nonce and the sealed key.
    fn encode_key(&self, key: &[u8]) -> (r: (Vec<u8>, Vec<u8>))
        requires
            self.wf(),
        ensures
            r.0@ =~= zero_nonce(),
            r.1@ == sealed_key(self.aead_key(), key@),
            forall|q: Seq<u8>| q != key@ ==> #[trigger] sealed_key(self.aead_key(), q) != r.1@,
    {
        let nonce = make_zero_nonce();
        let plain = slice_to_vec(key);
        let empty: Vec<u8> = Vec::new();
        let sealed = seal_bytes(&self.key, &nonce, &plain, &empty);
        (nonce, sealed)
    }

    /// Seals a plaintext value under the given nonce.
    fn encode_value(&self, nonce: &Vec<u8>, value: &[u8]) -> (r: Vec<u8>)
        requires
            self.wf(),
            nonce@.len() == 15,
        ensures
            r@ == sealed_of(self.aead_key(), nonce@, value@, Seq::empty()),
    {
        let plain = slice_to_vec(value);
        let empty: Vec<u8> = Vec::new();
        seal_bytes(&self.key, nonce, &plain, &empty)
    }

    /// Opens a sealed value under the given nonce; fails exactly on bytes
    /// that were not sealed under this store's key.
    fn decode_value(&self, nonce: &Vec<u8>, value: &Vec<u8>) -> (r: Option<Vec<u8>>)
        requires
            self.wf(),
            nonce@.len() == 15,
        ensures
            r matches Some(p) ==> value@ == sealed_of(self.aead_key(), nonce@, p@, Seq::empty()),
            r matches Some(p) ==> forall|q: Seq<u8>|
                value@ == sealed_of(self.aead_key(), nonce@, q, Seq::empty()) ==> q == p@,
            r is None ==> forall|p: Seq<u8>|
                value@ != sealed_of(self.aead_key(), nonce@, p, Seq::empty()),
    {
        let empty: Vec<u8> = Vec::new();
        open_bytes(&self.key, nonce, value, &empty)
    }

    /// Looks up a plaintext key: the value sealed under this key in the
    /// inner store, opened; absent exactly when the inner store holds
    /// nothing under the sealed key.  The opened value is the unique
    /// plaintext sealing to the stored bytes, so a lookup after an insert
    /// of the same key returns exactly the inserted value.
    pub fn get(&self, key: &[u8]) -> (r: Option<Vec<u8>>)
        requires
            self.wf(),
        ensures
            match r {
                Some(v) => self.inner_view().contains_key(sealed_key(self.aead_key(), key@))
                    && self.inner_view()[sealed_key(self.aead_key(), key@)] == sealed_value(
                    self.aead_key(),
                    v@,
                ),
                None => !self.inner_view().contains_key(sealed_key(self.aead_key(), key@)),
            },
            r matches Some(v) ==> forall|q: Seq<u8>|
                #[trigger] sealed_value(self.aead_key(), q) == self.inner_view()[sealed_key(
                    self.aead_key(),
                    key@,
                )] ==> q == v@,
    {
        let (nonce, ekey) = self.encode_key(key);
        match self.inner.get(ekey.as_slice()) {
            None => None,
            Some(evalue) => {
                let opened = self.decode_value(&nonce, &evalue);
                match opened {
                    Some(v) => Some(v),
                    None => {
                        proof {
                            let iv = self.inner.view();
                            let k = sealed_key(self.aead_key(), key@);
                            assert(iv.contains_key(k));
                            let p = choose|p: Seq<u8>|
                                iv[k] == #[trigger] sealed_value(self.aead_key(), p);
                            assert(evalue@ == sealed_value(self.aead_key(), p));
                            assert(evalue@ != sealed_of(
                                self.aead_key(),
                                zero_nonce(),
                                p,
                                Seq::empty(),
                            ));
                            assert(false);
                        }
                        None
                    },
                }
            },
        }
    }

    /// Stores a value under a plaintext key: the inner store gains the
    /// sealed value under the sealed key, and nothing else changes; no
    /// other plaintext key seals to the touched inner key.
    pub fn insert(&mut self, key: &[u8], value: &[u8])
        requires
            old(self).wf(),
        ensures
            final(self).wf(),
            final(self).aead_key() == old(self).aead_key(),
            final(self).inner_view() == old(self).inner_view().insert(
                sealed_key(old(self).aead_key(), key@),
                sealed_value(old(self).aead_key(), value@),
            ),
            forall|q: Seq<u8>|
                q != key@ ==> #[trigger] sealed_key(old(self).aead_key(), q) != sealed_key(
                    old(self).aead_key(),
                    key@,
                ),
    {
        let ghost k0 = self.key@;
        let ghost m0 = self.inner.view();
        let (nonce, ekey) = self.encode_key(key);
        let evalue = self.encode_value(&nonce, value);
        self.inner.insert(ekey.as_slice(), evalue.as_slice());
        proof {
            lemma_all_sealed_insert(k0, m0, ekey@, value@);
        }
    }

    /// Removes a plaintext key: the inner store loses the sealed key, and
    /// nothing else changes; no other plaintext key seals to the removed
    /// inner key, so every other key's mapping is untouched.
    pub fn remove(&mut self, key: &[u8])
        requires
            old(self).wf(),
        ensures
            final(self).wf(),
            final(self).aead_key() == old(self).aead_key(),
            final(self).inner_view() == old(self).inner_view().remove(
                sealed_key(old(self).aead_key(), key@),
            ),
            forall|q: Seq<u8>|
                q != key@ ==> #[trigger] sealed_key(old(self).aead_key(), q) != sealed_key(
                    old(self).aead_key(),
                    key@,
                ),
    {
        let ghost k0 = self.key@;
        let ghost m0 = self.inner.view();
        let (_, ekey) = self.encode_key(key);
        self.inner.remove(ekey.as_slice());
        proof {
            lemma_all_sealed_remove(k0, m0, ekey@);
        }
    }
}

/// An iterator over an inner store, as modules see it.
pub trait StoreIter {
    /// Whether the iterator currently points at an entry.
    spec fn valid_spec(&self) -> bool;

    fn is_valid(&self) -> (r: bool)
        ensures
            r == self.valid_spec(),
    ;
}

/// An iterator over a confidential store: it walks the inner (sealed)
/// entries and keeps the opened current entry.
pub struct ConfidentialStoreIterator<I: StoreIter> {
    pub inner: I,
    pub key: Option<Vec<u8>>,
    pub value: Option<Vec<u8>>,
}

impl<I: StoreIter> ConfidentialStoreIterator<I> {
    /// Starts an iterator with no current entry.
    pub fn new(inner: I) -> (r: ConfidentialStoreIterator<I>)
        ensures
            r.inner == inner,
            r.key is None,
            r.value is None,
    {
        ConfidentialStoreIterator { inner, key: None, value: None }
    }

    /// Re-reads the current entry from the inner iterator: when the inner
    /// iterator is exhausted, the current entry is cleared; otherwise it is
    /// kept as is.
    pub fn reset(&mut self)
        ensures
            final(self).inner == old(self).inner,
            !old(self).inner.valid_spec() ==> final(self).key is None && final(self).value
                is None,
            old(self).inner.valid_spec() ==> *final(self) == *old(self),
    {
        if !self.inner.is_valid() {
            self.key = None;
            self.value = None;
        }
    }

    /// Whether the iterator currently points at an entry of the inner store.
    pub fn is_valid(&self) -> (r: bool)
        ensures
            r == self.inner.valid_spec(),
    {
        self.inner.is_valid()
    }

    /// The opened key of the current entry, if any.
    pub fn get_key(&self) -> (r: &Option<Vec<u8>>)
        ensures
            r == &self.key,
    {
        &self.key
    }

    /// The opened value of the current entry, if any.
    pub fn get_value(&self) -> (r: &Option<Vec<u8>>)
        ensures
            r == &self.value,
    {
        &self.value
    }
}


/// The contents of an entry list, later entries overriding earlier ones.
pub open spec fn assoc_map(s: Seq<(Seq<u8>, Seq<u8>)>) -> Map<Seq<u8>, Seq<u8>>
    decreases s.len(),
{
    if s.len() == 0 {
        Map::empty()
    } else {
        assoc_map(s.drop_last()).insert(s.last().0, s.last().1)
    }
}

proof fn lemma_assoc_absent(s: Seq<(Seq<u8>, Seq<u8>)>, k: Seq<u8>)
    requires
        forall|j: int| 0 <= j < s.len() ==> (#[trigger] s[j]).0 != k,
    ensures
        !assoc_map(s).contains_key(k),
    decreases s.len(),
{
    if s.len() > 0 {
        lemma_assoc_absent(s.drop_last(), k);
    }
}

proof fn lemma_assoc_found(s: Seq<(Seq<u8>, Seq<u8>)>, i: int, k: Seq<u8>)
    requires
        0 <= i < s.len(),
        s[i].0 == k,
        forall|j: int| i < j < s.len() ==> (#[trigger] s[j]).0 != k,
    ensures
        assoc_map(s).contains_key(k),
        assoc_map(s)[k] == s[i].1,
    decreases s.len(),
{
    if i == s.len() - 1 {
    } else {
        lemma_assoc_found(s.drop_last(), i, k);
    }
}

/// A plain in-memory store: an entry list where the latest entry for a key
/// wins.
pub struct MemStore {
    pub entries: Vec<(Vec<u8>, Vec<u8>)>,
}

/// The entry list of a store, as mathematical values.
pub open spec fn entries_view(entries: Seq<(Vec<u8>, Vec<u8>)>) -> Seq<(Seq<u8>, Seq<u8>)> {
    entries.map_values(|e: (Vec<u8>, Vec<u8>)| (e.0@, e.1@))
}

impl MemStore {
    /// An empty store.
    pub fn empty() -> (r: MemStore)
        ensures
            r.view() == Map::<Seq<u8>, Seq<u8>>::empty(),
    {
        let r = MemStore { entries: Vec::new() };
        proof {
            assert(entries_view(r.entries@) =~= Seq::<(Seq<u8>, Seq<u8>)>::empty());
        }
        r
    }
}

fn bytes_eq(a: &[u8], b: &[u8]) -> (r: bool)
    ensures
        r == (a@ == b@),
{
    if a.len() != b.len() {
        proof {
            assert(a@.len() != b@.len());
        }
        return false;
    }
    let mut i: usize = 0;
    while i < a.len()
        invariant
            i <= a@.len(),
            a@.len() == b@.len(),
            forall|j: int| 0 <= j < i ==> a@[j] == b@[j],
        decreases a@.len() - i,
    {
        if a[i] != b[i] {
            proof {
                assert(a@[i as int] != b@[i as int]);
            }
            return false;
        }
        i = i + 1;
    }
    proof {
        assert(a@ =~= b@);
    }
    true
}

impl Store for MemStore {
    open spec fn view(&self) -> Map<Seq<u8>, Seq<u8>> {
        assoc_map(entries_view(self.entries@))
    }

    fn get(&self, key: &[u8]) -> (r: Option<Vec<u8>>) {
        let ghost s = entries_view(self.entries@);
        let mut i: usize = self.entries.len();
        while i > 0
            invariant
                i <= self.entries@.len(),
                s == entries_view(self.entries@),
                forall|j: int| i <= j < s.len() ==> (#[trigger] s[j]).0 != key@,
            decreases i,
        {
            i = i - 1;
            let entry = &self.entries[i];
            if bytes_eq(entry.0.as_slice(), key) {
                proof {
                    lemma_assoc_found(s, i as int, key@);
                }
                return Some(slice_to_vec(entry.1.as_slice()));
            }
            proof {
                assert(s[i as int].0 != key@);
            }
        }
        proof {
            lemma_assoc_absent(s, key@);
        }
        None
    }

    fn insert(&mut self, key: &[u8], value: &[u8]) {
        let ghost s = entries_view(self.entries@);
        self.entries.push((slice_to_vec(key), slice_to_vec(value)));
        proof {
            let s2 = entries_view(self.entries@);
            assert(s2.drop_last() =~= s);
            assert(s2.last() == (key@, value@));
            assert(assoc_map(s2) == assoc_map(s).insert(key@, value@));
        }
    }

    fn remove(&mut self, key: &[u8]) {
        let ghost s = entries_view(self.entries@);
        let ghost all = self.entries@;
        let mut kept: Vec<(Vec<u8>, Vec<u8>)> = Vec::new();
        let total = self.entries.len();
        let mut i: usize = 0;
        proof {
            assert(entries_view(kept@) =~= Seq::<(Seq<u8>, Seq<u8>)>::empty());
            assert(entries_view(all.take(0)) =~= Seq::<(Seq<u8>, Seq<u8>)>::empty());
            assert(assoc_map(entries_view(kept@)) =~= assoc_map(
                entries_view(all.take(0)),
            ).remove(key@));
        }
        while i < total
            invariant
                all == self.entries@,
                s == entries_view(all),
                i <= total,
                total == all.len(),
                assoc_map(entries_view(kept@)) == assoc_map(entries_view(all.take(i as int)))
                    .remove(key@),
            decreases total - i,
        {
            let ghost iprev = i as int;
            let ghost kept_prev = kept@;
            let entry = &self.entries[i];
            let matched = bytes_eq(entry.0.as_slice(), key);
            if !matched {
                kept.push((slice_to_vec(entry.0.as_slice()), slice_to_vec(entry.1.as_slice())));
            }
            i = i + 1;
            proof {
                let prefix_prev = entries_view(all.take(iprev));
                let prefix_new = entries_view(all.take(i as int));
                assert(all.take(i as int).drop_last() =~= all.take(iprev));
                assert(prefix_new.drop_last() =~= prefix_prev);
                assert(prefix_new.last() == (all[iprev].0@, all[iprev].1@));
                assert(assoc_map(prefix_new) == assoc_map(prefix_prev).insert(
                    all[iprev].0@,
                    all[iprev].1@,
                ));
                if matched {
                    assert(assoc_map(prefix_new).remove(key@) =~= assoc_map(prefix_prev).remove(
                        key@,
                    ));
                } else {
                    assert(entries_view(kept@).drop_last() =~= entries_view(kept_prev));
                    assert(entries_view(kept@).last() == (all[iprev].0@, all[iprev].1@));
                    assert(assoc_map(entries_view(kept@)) == assoc_map(
                        entries_view(kept_prev),
                    ).insert(all[iprev].0@, all[iprev].1@));
                    assert(assoc_map(prefix_new).remove(key@) =~= assoc_map(prefix_prev).remove(
                        key@,
                    ).insert(all[iprev].0@, all[iprev].1@));
                }
            }
        }
        proof {
            assert(all.take(i as int) =~= all);
        }
        self.entries = kept;
    }
}

/// An iterator over a [`MemStore`]'s entry list.
pub struct MemStoreIter {
    pub entries: Vec<(Vec<u8>, Vec<u8>)>,
    pub pos: usize,
}

impl MemStoreIter {
    /// Starts at `pos` within the given entries.
    pub fn new(entries: Vec<(Vec<u8>, Vec<u8>)>, pos: usize) -> (r: MemStoreIter)
        ensures
            r.entries == entries,
            r.pos == pos,
    {
        MemStoreIter { entries, pos }
    }
}

impl StoreIter for MemStoreIter {
    open spec fn valid_spec(&self) -> bool {
        self.pos < self.entries@.len()
    }

    fn is_valid(&self) -> (r: bool) {
        self.pos < self.entries.len()
    }
}

fn slice_to_vec(s: &[u8]) -> (r: Vec<u8>)
    ensures
        r@ == s@,
{
    let mut out: Vec<u8> = Vec::new();
    let mut i: usize = 0;
    while i < s.len()
        invariant
            i <= s@.len(),
            out@ =~= s@.take(i as int),
        decreases s@.len() - i,
    {
        out.push(s[i]);
        i = i + 1;
        proof {
            assert(out@ =~= s@.take(i as int));
        }
    }
    proof {
        assert(s@.take(s@.len() as int) =~= s@);
    }
    out
}

fn clone_bytes(v: &Vec<u8>) -> (r: Vec<u8>)
    ensures
        r@ == v@,
{
    slice_to_vec(v.as_slice())
}

} // verus!
