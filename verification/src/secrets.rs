//! The API keys of the application: kept in memory by name and persisted
//! as JSON, obfuscated by a repeating XOR key and encoded in Base64.
use vstd::prelude::*;
use vstd::utf8::{decode_utf8, encode_utf8, valid_utf8};
use std::collections::HashMap;
use base64::Engine;
use crate::text::{byte_len, chars_of, chars_within, floor_prefix, push_str, string_of_range, utf8_decode};
use crate::gateway::seq_eq;

verus! {

/// The bytes with which stored secrets are XOR-ed, in turn.
pub const SECRET_KEY: [u8; 26] = [
    108u8, 108u8, 109u8, 119u8, 105u8, 107u8, 105u8, 95u8, 115u8, 101u8, 99u8, 114u8, 101u8, 116u8,
    95u8, 107u8, 101u8, 121u8, 95u8, 50u8, 48u8, 50u8, 52u8, 95u8, 118u8, 49u8,
];

/// Each byte XOR-ed with the key byte at its position (the key repeats).
pub open spec fn xor_key(b: Seq<u8>) -> Seq<u8> {
    Seq::new(b.len(), |i: int| b[i] ^ SECRET_KEY@[i % 26])
}

/// The character of the standard Base64 alphabet for a six-bit value:
/// `A`-`Z`, `a`-`z`, `0`-`9`, `+`, `/`.
pub open spec fn base64_digit(v: int) -> char {
    if v < 26 {
        (65 + v) as char
    } else if v < 52 {
        (97 + v - 26) as char
    } else if v < 62 {
        (48 + v - 52) as char
    } else if v == 62 {
        '+'
    } else {
        '/'
    }
}

/// Standard Base64 with padding: each group of three bytes gives four
/// characters; a last group of one or two bytes is padded with `=`.
pub open spec fn base64_of(b: Seq<u8>) -> Seq<char>
    decreases b.len(),
{
    if b.len() == 0 {
        Seq::empty()
    } else if b.len() == 1 {
        seq![base64_digit((b[0] as int) / 4), base64_digit(((b[0] as int) % 4) * 16), '=', '=']
    } else if b.len() == 2 {
        seq![
            base64_digit((b[0] as int) / 4),
            base64_digit(((b[0] as int) % 4) * 16 + (b[1] as int) / 16),
            base64_digit(((b[1] as int) % 16) * 4),
            '=',
        ]
    } else {
        seq![
            base64_digit((b[0] as int) / 4),
            base64_digit(((b[0] as int) % 4) * 16 + (b[1] as int) / 16),
            base64_digit(((b[1] as int) % 16) * 4 + (b[2] as int) / 64),
            base64_digit((b[2] as int) % 64),
        ] + base64_of(b.skip(3))
    }
}

/// What the standard Base64 engine decodes a text to: the bytes, or the
/// text of the decoding error.
pub uninterp spec fn base64_decoded(s: Seq<char>) -> Result<Seq<u8>, Seq<char>>;

/// Calls `Engine::encode` of the standard Base64 engine
/// (`base64::engine::general_purpose::STANDARD`, padded); decoding its
/// result gives the bytes back.
#[verifier::external_body]
fn base64_encode(b: &[u8]) -> (r: String)
    ensures
        r@ == base64_of(b@),
        base64_decoded(r@) is Ok && base64_decoded(r@)->Ok_0 == b@,
{
    base64::engine::general_purpose::STANDARD.encode(b)
}

/// Calls `Engine::decode` of the standard Base64 engine, with the error as
/// its `Display` text.
#[verifier::external_body]
fn base64_decode(s: &str) -> (r: Result<Vec<u8>, String>)
    ensures
        match (r, base64_decoded(s@)) {
            (Ok(v), Ok(b)) => v@ == b,
            (Err(e), Err(m)) => e@ == m,
            _ => false,
        },
{
    base64::engine::general_purpose::STANDARD.decode(s).map_err(|e| e.to_string())
}

/// What `serde_json::from_str::<HashMap<String, String>>` gives for a text:
/// the map from names to values, if the text is such a JSON object.
pub uninterp spec fn json_str_map(s: Seq<char>) -> Option<Map<Seq<char>, Seq<char>>>;

/// The value of the last entry named `k`, if any.
pub open spec fn lookup(v: Seq<(String, String)>, k: Seq<char>) -> Option<Seq<char>>
    decreases v.len(),
{
    if v.len() == 0 {
        None
    } else if v.last().0@ == k {
        Some(v.last().1@)
    } else {
        lookup(v.drop_last(), k)
    }
}

/// Whether no two entries have the same name.
pub open spec fn names_unique(v: Seq<(String, String)>) -> bool {
    forall|i: int, j: int| 0 <= i < j < v.len() ==> (#[trigger] v[i]).0@ != (#[trigger] v[j]).0@
}

/// The entries as a map from names to values.
pub open spec fn entries_map(v: Seq<(String, String)>) -> Map<Seq<char>, Seq<char>> {
    Map::new(|k: Seq<char>| lookup(v, k) is Some, |k: Seq<char>| lookup(v, k)->Some_0)
}

/// Calls `serde_json::from_str::<HashMap<String, String>>` and lists the
/// entries of the map (in the order in which the map is walked).
#[verifier::external_body]
fn parse_secret_map(s: &str) -> (r: Option<Vec<(String, String)>>)
    ensures
        r is Some == json_str_map(s@) is Some,
        r matches Some(v) ==> names_unique(v@) && entries_map(v@) == json_str_map(s@)->Some_0,
{
    serde_json::from_str::<HashMap<String, String>>(s).ok().map(|m| m.into_iter().collect())
}

/// Calls `serde_json::to_string` on the entries gathered into a
/// `HashMap<String, String>`; reading the text back gives the same map.
#[verifier::external_body]
fn secret_map_json(v: &Vec<(String, String)>) -> (r: String)
    requires
        names_unique(v@),
    ensures
        json_str_map(r@) == Some(entries_map(v@)),
{
    let m: HashMap<String, String> = v.iter().cloned().collect();
    match serde_json::to_string(&m) {
        Ok(s) => s,
        Err(_) => String::new(),
    }
}

/// What decrypting a stored text gives: the Base64-decoded bytes XOR-ed
/// with the key, as UTF-8 text, or the error message.
pub open spec fn decrypted(s: Seq<char>) -> Result<Seq<char>, Seq<char>> {
    match base64_decoded(s) {
        Err(m) => Err("Base64解码失败: "@ + m),
        Ok(b) => if valid_utf8(xor_key(b)) {
            Ok(decode_utf8(xor_key(b)))
        } else {
            Err("UTF-8解码失败: "@ + crate::text::utf8_error_text(xor_key(b)))
        },
    }
}

/// The names and values loaded from a stored text: none when it does not
/// decrypt to a JSON object of strings.
pub open spec fn loaded_secrets(s: Seq<char>) -> Map<Seq<char>, Seq<char>> {
    match decrypted(s) {
        Ok(j) => match json_str_map(j) {
            Some(m) => m,
            None => Map::empty(),
        },
        Err(_) => Map::empty(),
    }
}

/// What a key is shown as: `****` when it has at most 8 bytes, otherwise
/// its first 4 bytes, `****` and its last 4 bytes.
pub open spec fn masked_key(key: Seq<char>) -> Seq<char> {
    if byte_len(key) <= 8 {
        "****"@
    } else {
        key.take(chars_within(key, 4, 0, 0)) + "****"@ + key.skip(
            chars_within(key, (byte_len(key) - 4) as nat, 0, 0),
        )
    }
}

/// Whether the first 4 and the last 4 bytes of a key of more than 8 bytes
/// are whole characters (`&key[..4]` and `&key[len - 4..]` cut there).
pub open spec fn mask_cuttable(key: Seq<char>) -> bool {
    byte_len(key) > 8 ==> {
        &&& byte_len(key.take(chars_within(key, 4, 0, 0))) == 4
        &&& byte_len(key.take(chars_within(key, (byte_len(key) - 4) as nat, 0, 0))) == byte_len(key) - 4
    }
}

proof fn lemma_lookup_found(v: Seq<(String, String)>, i: int)
    requires
        names_unique(v),
        0 <= i < v.len(),
    ensures
        lookup(v, v[i].0@) == Some(v[i].1@),
    decreases v.len(),
{
    if i < v.len() - 1 {
        let d = v.drop_last();
        assert(v[i] == d[i]);
        assert(v[i].0@ != v[v.len() - 1].0@);
        lemma_lookup_found(d, i);
    }
}

proof fn lemma_lookup_absent(v: Seq<(String, String)>, k: Seq<char>)
    requires
        forall|i: int| 0 <= i < v.len() ==> (#[trigger] v[i]).0@ != k,
    ensures
        lookup(v, k) is None,
    decreases v.len(),
{
    if v.len() > 0 {
        let d = v.drop_last();
        assert forall|i: int| 0 <= i < d.len() implies (#[trigger] d[i]).0@ != k by {
            assert(d[i] == v[i]);
        }
        assert(v[v.len() - 1].0@ != k);
        lemma_lookup_absent(d, k);
    }
}

proof fn lemma_lookup_entry(v: Seq<(String, String)>, k: Seq<char>)
    requires
        lookup(v, k) is Some,
    ensures
        exists|i: int| 0 <= i < v.len() && (#[trigger] v[i]).0@ == k && v[i].1@ == lookup(v, k)->Some_0,
    decreases v.len(),
{
    if v.last().0@ != k {
        let d = v.drop_last();
        lemma_lookup_entry(d, k);
        let i = choose|i: int| 0 <= i < d.len() && (#[trigger] d[i]).0@ == k && d[i].1@ == lookup(d, k)->Some_0;
        assert(v[i] == d[i]);
    } else {
        assert(v[v.len() - 1] == v.last());
    }
}

proof fn lemma_lookup_update(v: Seq<(String, String)>, i: int, e: (String, String), q: Seq<char>)
    requires
        names_unique(v),
        0 <= i < v.len(),
        v[i].0@ == e.0@,
    ensures
        lookup(v.update(i, e), q) == if q == e.0@ {
            Some(e.1@)
        } else {
            lookup(v, q)
        },
    decreases v.len(),
{
    let u = v.update(i, e);
    if i == v.len() - 1 {
        assert(u.drop_last() =~= v.drop_last());
    } else {
        let d = v.drop_last();
        assert(u.drop_last() =~= d.update(i, e));
        assert(d[i] == v[i]);
        assert(v[i].0@ != v[v.len() - 1].0@);
        assert forall|a: int, b: int| 0 <= a < b < d.len() implies (#[trigger] d[a]).0@ != (#[trigger] d[b]).0@ by {
            assert(d[a] == v[a] && d[b] == v[b]);
        }
        lemma_lookup_update(d, i, e, q);
    }
}

proof fn lemma_lookup_remove(v: Seq<(String, String)>, i: int, q: Seq<char>)
    requires
        names_unique(v),
        0 <= i < v.len(),
    ensures
        lookup(v.remove(i), q) == if q == v[i].0@ {
            None
        } else {
            lookup(v, q)
        },
        names_unique(v.remove(i)),
    decreases v.len(),
{
    let r = v.remove(i);
    assert forall|a: int, b: int| 0 <= a < b < r.len() implies (#[trigger] r[a]).0@ != (#[trigger] r[b]).0@ by {
        let a2 = if a < i { a } else { a + 1 };
        let b2 = if b < i { b } else { b + 1 };
        assert(r[a] == v[a2] && r[b] == v[b2]);
    }
    let d = v.drop_last();
    assert forall|a: int, b: int| 0 <= a < b < d.len() implies (#[trigger] d[a]).0@ != (#[trigger] d[b]).0@ by {
        assert(d[a] == v[a] && d[b] == v[b]);
    }
    if i == v.len() - 1 {
        assert(r =~= d);
        if q == v[i].0@ {
            assert forall|j: int| 0 <= j < d.len() implies (#[trigger] d[j]).0@ != q by {
                assert(d[j] == v[j]);
            }
            lemma_lookup_absent(d, q);
        }
    } else {
        assert(r.drop_last() =~= d.remove(i));
        assert(r.last() == v.last());
        assert(d[i] == v[i]);
        assert(v[i].0@ != v[v.len() - 1].0@);
        lemma_lookup_remove(d, i, q);
    }
}

/// XORs each byte with the key byte at its position.
fn xor_with_key(b: &[u8]) -> (r: Vec<u8>)
    ensures
        r@ == xor_key(b@),
{
    let mut r: Vec<u8> = Vec::new();
    let mut i: usize = 0;
    while i < b.len()
        invariant
            i <= b@.len(),
            r@ == xor_key(b@).take(i as int),
        decreases b.len() - i,
    {
        r.push(b[i] ^ SECRET_KEY[i % 26]);
        assert(xor_key(b@).take(i + 1) =~= xor_key(b@).take(i as int).push(b@[i as int] ^ SECRET_KEY@[(i % 26) as int]));
        i = i + 1;
    }
    assert(xor_key(b@).take(b@.len() as int) =~= xor_key(b@));
    r
}

proof fn lemma_xor_twice(b: Seq<u8>)
    ensures
        xor_key(xor_key(b)) == b,
{
    assert forall|i: int| 0 <= i < b.len() implies #[trigger] xor_key(xor_key(b))[i] == b[i] by {
        let x = b[i];
        let k = SECRET_KEY@[i % 26];
        assert((x ^ k) ^ k == x) by (bit_vector);
    }
    assert(xor_key(xor_key(b)) =~= b);
}

/// Shows a key as `masked_key` does.
fn mask(key: &str) -> (r: String)
    requires
        mask_cuttable(key@),
    ensures
        r@ == masked_key(key@),
{
    let total = key.as_bytes().len();
    proof {
        reveal_strlit("****");
    }
    if total <= 8 {
        return String::from_str("****");
    }
    let cs = chars_of(key);
    let (a, _) = floor_prefix(&cs, 4);
    let (b, _) = floor_prefix(&cs, total - 4);
    let mut r = string_of_range(&cs, 0, a);
    push_str(&mut r, "****");
    let tail = string_of_range(&cs, b, cs.len());
    push_str(&mut r, tail.as_str());
    assert(cs@.subrange(0, a as int) =~= key@.take(a as int));
    assert(cs@.subrange(b as int, cs@.len() as int) =~= key@.skip(b as int));
    r
}

/// API keys by name, and the directory where they are stored.
pub struct SecretService {
    secrets: Vec<(String, String)>,
    storage_dir: String,
}

impl SecretService {
    /// The names and values held.
    pub closed spec fn view(&self) -> Map<Seq<char>, Seq<char>> {
        entries_map(self.secrets@)
    }

    /// The directory where the keys are stored.
    pub closed spec fn dir(&self) -> Seq<char> {
        self.storage_dir@
    }

    /// The directory where the keys are stored.
    pub fn storage_dir(&self) -> (r: &str)
        ensures
            r@ == self.dir(),
    {
        self.storage_dir.as_str()
    }

    /// Whether no two entries have the same name.
    pub closed spec fn wf(&self) -> bool {
        names_unique(self.secrets@)
    }

    /// The index of the entry named `k`, if any.
    fn find(&self, k: &str) -> (r: Option<usize>)
        requires
            self.wf(),
        ensures
            match r {
                Some(i) => i < self.secrets@.len() && self.secrets@[i as int].0@ == k@,
                None => forall|i: int| 0 <= i < self.secrets@.len() ==> (#[trigger] self.secrets@[i]).0@ != k@,
            },
    {
        let kc = chars_of(k);
        let mut i: usize = 0;
        while i < self.secrets.len()
            invariant
                i <= self.secrets@.len(),
                kc@ == k@,
                forall|j: int| 0 <= j < i ==> (#[trigger] self.secrets@[j]).0@ != k@,
            decreases self.secrets.len() - i,
        {
            let name = chars_of(self.secrets[i].0.as_str());
            if seq_eq(&name, &kc) {
                return Some(i);
            }
            i = i + 1;
        }
        None
    }

    /// The key stored under `key_name`, if any.
    pub fn get_api_key(&self, key_name: &str) -> (r: Option<String>)
        requires
            self.wf(),
        ensures
            match r {
                Some(v) => self@.contains_key(key_name@) && self@[key_name@] == v@,
                None => !self@.contains_key(key_name@),
            },
    {
        match self.find(key_name) {
            Some(i) => {
                proof {
                    lemma_lookup_found(self.secrets@, i as int);
                }
                Some(self.secrets[i].1.clone())
            },
            None => {
                proof {
                    lemma_lookup_absent(self.secrets@, key_name@);
                }
                None
            },
        }
    }

    /// Stores `api_key` under `key_name`, replacing the key stored there.
    pub fn store_api_key(&mut self, key_name: &str, api_key: &str)
        requires
            old(self).wf(),
        ensures
            final(self).wf(),
            final(self)@ == old(self)@.insert(key_name@, api_key@),
            final(self).dir() == old(self).dir(),
    {
        let e = (String::from_str(key_name), String::from_str(api_key));
        let ghost v = self.secrets@;
        match self.find(key_name) {
            Some(i) => {
                self.secrets.set(i, e);
                proof {
                    assert forall|q: Seq<char>| #[trigger] lookup(self.secrets@, q) == (if q == key_name@ {
                        Some(api_key@)
                    } else {
                        lookup(v, q)
                    }) by {
                        lemma_lookup_update(v, i as int, e, q);
                    }
                    assert forall|a: int, b: int| 0 <= a < b < self.secrets@.len() implies (#[trigger] self.secrets@[a]).0@
                        != (#[trigger] self.secrets@[b]).0@ by {
                        if a != i && b != i {
                            assert(self.secrets@[a] == v[a] && self.secrets@[b] == v[b]);
                        } else if a == i {
                            assert(self.secrets@[b] == v[b]);
                        } else {
                            assert(self.secrets@[a] == v[a]);
                        }
                    }
                }
            },
            None => {
                self.secrets.push(e);
                proof {
                    assert(self.secrets@.drop_last() =~= v);
                    assert forall|a: int, b: int| 0 <= a < b < self.secrets@.len() implies (#[trigger] self.secrets@[a]).0@
                        != (#[trigger] self.secrets@[b]).0@ by {
                        assert(self.secrets@[a] == v[a]);
                        if b < v.len() {
                            assert(self.secrets@[b] == v[b]);
                        }
                    }
                }
            },
        }
        assert(self@ =~= old(self)@.insert(key_name@, api_key@));
    }

    /// Removes the key stored under `key_name`, if any.
    pub fn remove_api_key(&mut self, key_name: &str)
        requires
            old(self).wf(),
        ensures
            final(self).wf(),
            final(self)@ == old(self)@.remove(key_name@),
            final(self).dir() == old(self).dir(),
    {
        let ghost v = self.secrets@;
        match self.find(key_name) {
            Some(i) => {
                self.secrets.remove(i);
                proof {
                    assert forall|q: Seq<char>| #[trigger] lookup(self.secrets@, q) == (if q == key_name@ {
                        None
                    } else {
                        lookup(v, q)
                    }) by {
                        lemma_lookup_remove(v, i as int, q);
                    }
                    lemma_lookup_remove(v, i as int, key_name@);
                }
            },
            None => {
                proof {
                    lemma_lookup_absent(v, key_name@);
                }
            },
        }
        assert(self@ =~= old(self)@.remove(key_name@));
    }

    /// Whether a non-empty key is stored under `key_name`.
    pub fn has_api_key(&self, key_name: &str) -> (r: bool)
        requires
            self.wf(),
        ensures
            r == (self@.contains_key(key_name@) && self@[key_name@].len() > 0),
    {
        match self.get_api_key(key_name) {
            Some(v) => !v.as_str().is_empty(),
            None => false,
        }
    }

    /// Whether any non-empty key is stored.
    pub fn has_any_key(&self) -> (r: bool)
        requires
            self.wf(),
        ensures
            r == exists|k: Seq<char>| self@.contains_key(k) && #[trigger] self@[k].len() > 0,
    {
        let mut i: usize = 0;
        while i < self.secrets.len()
            invariant
                self.wf(),
                i <= self.secrets@.len(),
                forall|j: int| 0 <= j < i ==> (#[trigger] self.secrets@[j]).1@.len() == 0,
            decreases self.secrets.len() - i,
        {
            if !self.secrets[i].1.as_str().is_empty() {
                proof {
                    lemma_lookup_found(self.secrets@, i as int);
                    let k = self.secrets@[i as int].0@;
                    assert(self@.contains_key(k) && self@[k].len() > 0);
                }
                return true;
            }
            i = i + 1;
        }
        proof {
            assert forall|k: Seq<char>| self@.contains_key(k) implies #[trigger] self@[k].len() == 0 by {
                lemma_lookup_entry(self.secrets@, k);
            }
        }
        false
    }

    /// How the key stored under `key_name` is shown (see `masked_key`).
    pub fn mask_api_key(&self, key_name: &str) -> (r: Option<String>)
        requires
            self.wf(),
            self@.contains_key(key_name@) ==> mask_cuttable(self@[key_name@]),
        ensures
            match r {
                Some(m) => self@.contains_key(key_name@) && m@ == masked_key(self@[key_name@]),
                None => !self@.contains_key(key_name@),
            },
    {
        match self.get_api_key(key_name) {
            Some(key) => Some(mask(key.as_str())),
            None => None,
        }
    }

    /// Obfuscates a text for storage: its UTF-8 bytes XOR-ed with the key,
    /// in Base64. Decrypting the result gives the text back.
    pub fn encrypt(data: &str) -> (r: String)
        ensures
            r@ == base64_of(xor_key(encode_utf8(data@))),
            decrypted(r@) == Ok::<Seq<char>, Seq<char>>(data@),
    {
        let x = xor_with_key(data.as_bytes());
        let r = base64_encode(x.as_slice());
        proof {
            lemma_xor_twice(encode_utf8(data@));
            vstd::utf8::encode_utf8_valid_utf8(data@);
            vstd::utf8::encode_utf8_decode_utf8(data@);
        }
        r
    }

    /// Reads a stored text back (see `decrypted`).
    pub fn decrypt(encrypted: &str) -> (r: Result<String, String>)
        ensures
            match (r, decrypted(encrypted@)) {
                (Ok(t), Ok(u)) => t@ == u,
                (Err(e), Err(m)) => e@ == m,
                _ => false,
            },
    {
        match base64_decode(encrypted) {
            Err(e) => {
                let mut m = String::from_str("Base64解码失败: ");
                push_str(&mut m, e.as_str());
                Err(m)
            },
            Ok(bytes) => {
                let d = xor_with_key(bytes.as_slice());
                match utf8_decode(d.as_slice()) {
                    Ok(t) => Ok(t),
                    Err(e) => {
                        let mut m = String::from_str("UTF-8解码失败: ");
                        push_str(&mut m, e.as_str());
                        Err(m)
                    },
                }
            },
        }
    }

    /// The keys of the storage directory, loaded from the text of its secrets
    /// file when there is one (see `loaded_secrets`).
    pub fn new(storage_dir: &str, stored: Option<&str>) -> (s: Self)
        ensures
            s.wf(),
            s.dir() == storage_dir@,
            s@ == match stored {
                Some(t) => loaded_secrets(t@),
                None => Map::<Seq<char>, Seq<char>>::empty(),
            },
    {
        let mut secrets: Vec<(String, String)> = Vec::new();
        if let Some(t) = stored {
            if let Ok(json) = Self::decrypt(t) {
                if let Some(v) = parse_secret_map(json.as_str()) {
                    secrets = v;
                }
            }
        }
        let s = SecretService { secrets, storage_dir: String::from_str(storage_dir) };
        assert(s@ =~= match stored {
            Some(t) => loaded_secrets(t@),
            None => Map::<Seq<char>, Seq<char>>::empty(),
        });
        s
    }

    /// The text to store: the keys as JSON, encrypted. Loading it gives the
    /// same keys back.
    pub fn persisted(&self) -> (r: String)
        requires
            self.wf(),
        ensures
            loaded_secrets(r@) == self@,
    {
        let json = secret_map_json(&self.secrets);
        Self::encrypt(json.as_str())
    }
}

} // verus!
