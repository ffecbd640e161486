//! AI settings (a chat track and an embedding track, configured apart), their
//! status as the front end may see it (never the key itself), and the store
//! of secrets they are kept in.
use vstd::prelude::*;
use vstd::string::*;
use vstd::utf8::{decode_utf8, encode_utf8, is_char_boundary};
use crate::text::{concat, owned, push_char};

verus! {

broadcast use vstd::string::group_string_axioms;

// ---------------------------------------------------------------- configuration

/// Both AI tracks.
#[derive(Debug, Clone, Default)]
pub struct AiConfig {
    pub base_url: String,
    pub model: String,
    pub api_key: String,
    pub embedding_base_url: String,
    pub embedding_model: String,
    pub embedding_api_key: String,
    pub enabled: bool,
}

/// A partial update from the front end: only the fields given change.
#[derive(Debug, Clone, Default)]
pub struct AiConfigPatch {
    pub base_url: Option<String>,
    pub model: Option<String>,
    pub api_key: Option<String>,
    pub embedding_base_url: Option<String>,
    pub embedding_model: Option<String>,
    pub embedding_api_key: Option<String>,
    pub enabled: Option<bool>,
}

/// What the front end may read of one track.
#[derive(Debug, Clone)]
pub struct AiTrackStatus {
    pub configured: bool,
    pub model: Option<String>,
    pub base_url: Option<String>,
}

/// What the front end may read of the configuration.
#[derive(Debug, Clone)]
pub struct AiStatusPayload {
    pub chat: AiTrackStatus,
    pub embedding: AiTrackStatus,
    pub enabled: bool,
    pub key_mask: Option<String>,
}

/// Result of a connection test.
#[derive(Debug, Clone)]
pub struct TestResult {
    pub ok: bool,
    pub message: String,
}

// ---------------------------------------------------------------- key mask

/// The masked key: nothing for an empty key, one `*` per byte for up to four
/// bytes, otherwise `sk-***` and the last four bytes.
pub open spec fn mask_spec(key: Seq<char>) -> Option<Seq<char>> {
    let b = encode_utf8(key);
    if key.len() == 0 {
        None
    } else if b.len() <= 4 {
        Some(Seq::new(b.len(), |i: int| '*'))
    } else {
        Some("sk-***"@ + decode_utf8(b.subrange(b.len() - 4, b.len() as int)))
    }
}

/// The key as the front end may see it. A key longer than four bytes must
/// end on a character boundary four bytes before its end.
pub fn mask_key(key: &str) -> (r: Option<String>)
    requires
        encode_utf8(key@).len() <= usize::MAX,
        encode_utf8(key@).len() > 4 ==> is_char_boundary(encode_utf8(key@), encode_utf8(key@).len() - 4),
    ensures
        match r {
            Some(s) => mask_spec(key@) == Some(s@),
            None => mask_spec(key@) is None,
        },
{
    if key.is_empty() {
        return None;
    }
    let n = key.len();
    assert(n == encode_utf8(key@).len());
    if n <= 4 {
        let mut stars = String::new();
        let mut k: usize = 0;
        while k < n
            invariant
                k <= n,
                stars@ == Seq::new(k as nat, |i: int| '*'),
            decreases n - k,
        {
            push_char(&mut stars, '*');
            k = k + 1;
            assert(stars@ =~= Seq::new(k as nat, |i: int| '*'));
        }
        return Some(stars);
    }
    let (_, last4) = key.split_at(n - 4);
    proof {
        broadcast use vstd::utf8::encode_utf8_decode_utf8;
        assert(last4.spec_bytes() == encode_utf8(last4@));
        assert(decode_utf8(encode_utf8(last4@)) == last4@);
        reveal_strlit("sk-***");
    }
    Some(concat("sk-***", last4))
}

pub open spec fn opt_nonempty(s: Seq<char>) -> Option<Seq<char>> {
    if s.len() == 0 { None } else { Some(s) }
}

pub open spec fn opt_text_view(o: Option<String>) -> Option<Seq<char>> {
    match o {
        Some(s) => Some(s@),
        None => None,
    }
}

fn nonempty(s: &String) -> (r: Option<String>)
    ensures
        opt_text_view(r) == opt_nonempty(s@),
{
    if s.as_str().is_empty() { None } else { Some(s.clone()) }
}

/// The status of a configuration: a track is configured when its address,
/// model and key are all set; model and address are shown when set; the chat
/// key is shown masked.
pub fn to_status(config: &AiConfig) -> (st: AiStatusPayload)
    requires
        encode_utf8(config.api_key@).len() <= usize::MAX,
        encode_utf8(config.api_key@).len() > 4 ==> is_char_boundary(
            encode_utf8(config.api_key@),
            encode_utf8(config.api_key@).len() - 4,
        ),
    ensures
        st.chat.configured == (config.base_url@.len() > 0 && config.model@.len() > 0 && config.api_key@.len() > 0),
        opt_text_view(st.chat.model) == opt_nonempty(config.model@),
        opt_text_view(st.chat.base_url) == opt_nonempty(config.base_url@),
        st.embedding.configured == (config.embedding_base_url@.len() > 0 && config.embedding_model@.len() > 0
            && config.embedding_api_key@.len() > 0),
        opt_text_view(st.embedding.model) == opt_nonempty(config.embedding_model@),
        opt_text_view(st.embedding.base_url) == opt_nonempty(config.embedding_base_url@),
        st.enabled == config.enabled,
        opt_text_view(st.key_mask) == mask_spec(config.api_key@),
{
    AiStatusPayload {
        chat: AiTrackStatus {
            configured: !config.base_url.as_str().is_empty() && !config.model.as_str().is_empty()
                && !config.api_key.as_str().is_empty(),
            model: nonempty(&config.model),
            base_url: nonempty(&config.base_url),
        },
        embedding: AiTrackStatus {
            configured: !config.embedding_base_url.as_str().is_empty() && !config.embedding_model.as_str().is_empty()
                && !config.embedding_api_key.as_str().is_empty(),
            model: nonempty(&config.embedding_model),
            base_url: nonempty(&config.embedding_base_url),
        },
        enabled: config.enabled,
        key_mask: mask_key(config.api_key.as_str()),
    }
}

/// Merge a patch: each field given replaces the stored one.
pub fn apply_ai_patch(config: &mut AiConfig, patch: AiConfigPatch)
    ensures
        final(config).base_url == (if patch.base_url is Some { patch.base_url->0 } else { old(config).base_url }),
        final(config).model == (if patch.model is Some { patch.model->0 } else { old(config).model }),
        final(config).api_key == (if patch.api_key is Some { patch.api_key->0 } else { old(config).api_key }),
        final(config).embedding_base_url == (if patch.embedding_base_url is Some {
            patch.embedding_base_url->0
        } else {
            old(config).embedding_base_url
        }),
        final(config).embedding_model == (if patch.embedding_model is Some {
            patch.embedding_model->0
        } else {
            old(config).embedding_model
        }),
        final(config).embedding_api_key == (if patch.embedding_api_key is Some {
            patch.embedding_api_key->0
        } else {
            old(config).embedding_api_key
        }),
        final(config).enabled == (if patch.enabled is Some { patch.enabled->0 } else { old(config).enabled }),
{
    if let Some(v) = patch.base_url {
        config.base_url = v;
    }
    if let Some(v) = patch.model {
        config.model = v;
    }
    if let Some(v) = patch.api_key {
        config.api_key = v;
    }
    if let Some(v) = patch.embedding_base_url {
        config.embedding_base_url = v;
    }
    if let Some(v) = patch.embedding_model {
        config.embedding_model = v;
    }
    if let Some(v) = patch.embedding_api_key {
        config.embedding_api_key = v;
    }
    if let Some(v) = patch.enabled {
        config.enabled = v;
    }
}

// ---------------------------------------------------------------- secrets

/// A key-value store for secrets (the platform keeps them encrypted).
pub trait SecretsKeeper {
    /// What the store holds.
    spec fn entries(&self) -> Map<Seq<char>, Seq<char>>;

    /// The store's saves cannot fail (it keeps nothing outside memory).
    spec fn saves_always(&self) -> bool;

    /// Store `value` under `key`; on failure nothing changes.
    fn save(&mut self, key: &str, value: &str) -> (r: Result<(), String>)
        ensures
            r is Ok ==> final(self).entries() == old(self).entries().insert(key@, value@),
            r is Err ==> final(self).entries() == old(self).entries(),
            old(self).saves_always() ==> r is Ok && final(self).saves_always();

    /// The value stored under `key`.
    fn load(&self, key: &str) -> (r: Option<String>)
        ensures
            match r {
                Some(v) => self.entries().contains_key(key@) && self.entries()[key@] == v@,
                None => !self.entries().contains_key(key@),
            };

    /// Forget `key`; on failure nothing changes.
    fn delete(&mut self, key: &str) -> (r: Result<(), String>)
        ensures
            r is Ok ==> final(self).entries() == old(self).entries().remove(key@),
            r is Err ==> final(self).entries() == old(self).entries();
}

/// Secrets in memory, unencrypted (for tests and previews).
pub struct InMemoryKeeper {
    pairs: Vec<(String, String)>,
}

/// The map a list of pairs denotes (a later pair wins).
pub open spec fn pairs_map(s: Seq<(String, String)>) -> Map<Seq<char>, Seq<char>>
    decreases s.len(),
{
    if s.len() == 0 {
        Map::empty()
    } else {
        pairs_map(s.drop_last()).insert(s.last().0@, s.last().1@)
    }
}

proof fn lemma_pairs_map(s: Seq<(String, String)>, k: Seq<char>)
    requires
        forall|i: int, j: int| 0 <= i < j < s.len() ==> s[i].0@ != s[j].0@,
    ensures
        pairs_map(s).contains_key(k) <==> exists|i: int| 0 <= i < s.len() && s[i].0@ == k,
        forall|i: int| 0 <= i < s.len() && s[i].0@ == k ==> pairs_map(s)[k] == s[i].1@,
    decreases s.len(),
{
    if s.len() > 0 {
        let p = s.drop_last();
        lemma_pairs_map(p, k);
        if pairs_map(s).contains_key(k) && s.last().0@ != k {
            let i = choose|i: int| 0 <= i < p.len() && p[i].0@ == k;
            assert(s[i] == p[i]);
        }
        assert forall|i: int| 0 <= i < s.len() && s[i].0@ == k implies pairs_map(s)[k] == s[i].1@ by {
            if i < s.len() - 1 {
                assert(s[i] == p[i]);
            }
        }
        if exists|i: int| 0 <= i < s.len() && s[i].0@ == k {
            let i = choose|i: int| 0 <= i < s.len() && s[i].0@ == k;
            if i < s.len() - 1 {
                assert(p[i] == s[i]);
            }
        }
    }
}

pub open spec fn keys_distinct(s: Seq<(String, String)>) -> bool {
    forall|i: int, j: int| 0 <= i < j < s.len() ==> s[i].0@ != s[j].0@
}

impl InMemoryKeeper {
    #[verifier::type_invariant]
    closed spec fn inv(&self) -> bool {
        keys_distinct(self.pairs@)
    }

    pub fn new() -> (k: InMemoryKeeper)
        ensures
            k.entries() == Map::<Seq<char>, Seq<char>>::empty(),
    {
        let k = InMemoryKeeper { pairs: Vec::new() };
        assert(k.pairs@ =~= Seq::<(String, String)>::empty());
        k
    }

    fn position(&self, key: &str) -> (r: Option<usize>)
        ensures
            match r {
                Some(i) => i < self.pairs@.len() && self.pairs@[i as int].0@ == key@,
                None => forall|i: int| 0 <= i < self.pairs@.len() ==> self.pairs@[i].0@ != key@,
            },
    {
        let mut i: usize = 0;
        while i < self.pairs.len()
            invariant
                i <= self.pairs@.len(),
                forall|j: int| 0 <= j < i ==> self.pairs@[j].0@ != key@,
            decreases self.pairs@.len() - i,
        {
            if crate::text::same_text(self.pairs[i].0.as_str(), key) {
                return Some(i);
            }
            i = i + 1;
        }
        None
    }
}

impl Default for InMemoryKeeper {
    fn default() -> (k: Self)
        ensures
            k.entries() == Map::<Seq<char>, Seq<char>>::empty(),
    {
        InMemoryKeeper::new()
    }
}

proof fn lemma_map_eq(old: Seq<(String, String)>, new: Seq<(String, String)>, m: Map<Seq<char>, Seq<char>>)
    requires
        keys_distinct(old),
        keys_distinct(new),
        forall|k: Seq<char>| m.contains_key(k) <==> exists|i: int| 0 <= i < new.len() && new[i].0@ == k,
        forall|k: Seq<char>, i: int| 0 <= i < new.len() && new[i].0@ == k ==> m[k] == new[i].1@,
    ensures
        pairs_map(new) == m,
{
    assert forall|k: Seq<char>| #[trigger] pairs_map(new).contains_key(k) == m.contains_key(k)
        && (m.contains_key(k) ==> pairs_map(new)[k] == m[k]) by {
        lemma_pairs_map(new, k);
        if m.contains_key(k) {
            let i = choose|i: int| 0 <= i < new.len() && new[i].0@ == k;
        }
    }
    assert(pairs_map(new) =~= m);
}

impl SecretsKeeper for InMemoryKeeper {
    closed spec fn entries(&self) -> Map<Seq<char>, Seq<char>> {
        pairs_map(self.pairs@)
    }

    open spec fn saves_always(&self) -> bool {
        true
    }

    /// Never fails: the pairs live in memory.
    fn save(&mut self, key: &str, value: &str) -> (r: Result<(), String>)
        ensures
            r is Ok,
    {
        proof {
            use_type_invariant(&*self);
        }
        let ghost old_pairs = self.pairs@;
        let ghost m = pairs_map(old_pairs).insert(key@, value@);
        match self.position(key) {
            Some(i) => {
                let mut pairs = Vec::new();
                std::mem::swap(&mut pairs, &mut self.pairs);
                pairs.set(i, (owned(key), owned(value)));
                proof {
                    assert(pairs@[i as int].0@ == key@);
                    assert forall|k: Seq<char>| m.contains_key(k) <==> exists|j: int| 0 <= j < pairs@.len() && pairs@[j].0@ == k by {
                        lemma_pairs_map(old_pairs, k);
                        if k != key@ && m.contains_key(k) {
                            let j = choose|j: int| 0 <= j < old_pairs.len() && old_pairs[j].0@ == k;
                            assert(pairs@[j] == old_pairs[j]);
                        }
                        if k == key@ {
                            assert(pairs@[i as int].0@ == k);
                        }
                        if exists|j: int| 0 <= j < pairs@.len() && pairs@[j].0@ == k {
                            let j = choose|j: int| 0 <= j < pairs@.len() && pairs@[j].0@ == k;
                            if j != i {
                                assert(pairs@[j] == old_pairs[j]);
                            }
                        }
                    }
                    assert forall|k: Seq<char>, j: int| 0 <= j < pairs@.len() && pairs@[j].0@ == k implies m[k] == pairs@[j].1@ by {
                        lemma_pairs_map(old_pairs, k);
                        if j != i {
                            assert(pairs@[j] == old_pairs[j]);
                        }
                    }
                    assert(keys_distinct(pairs@));
                    lemma_map_eq(old_pairs, pairs@, m);
                }
                self.pairs = pairs;
            },
            None => {
                let mut pairs = Vec::new();
                std::mem::swap(&mut pairs, &mut self.pairs);
                pairs.push((owned(key), owned(value)));
                proof {
                    assert(pairs@.drop_last() =~= old_pairs);
                    assert(keys_distinct(pairs@));
                }
                self.pairs = pairs;
            },
        }
        Ok(())
    }

    fn load(&self, key: &str) -> (r: Option<String>) {
        proof {
            use_type_invariant(self);
            lemma_pairs_map(self.pairs@, key@);
        }
        match self.position(key) {
            Some(i) => Some(self.pairs[i].1.clone()),
            None => None,
        }
    }

    /// Never fails: the pairs live in memory.
    fn delete(&mut self, key: &str) -> (r: Result<(), String>)
        ensures
            r is Ok,
    {
        proof {
            use_type_invariant(&*self);
        }
        let ghost old_pairs = self.pairs@;
        let ghost m = pairs_map(old_pairs).remove(key@);
        if let Some(i) = self.position(key) {
            let mut pairs = Vec::new();
            std::mem::swap(&mut pairs, &mut self.pairs);
            pairs.remove(i);
            proof {
                assert(pairs@ =~= old_pairs.remove(i as int));
                assert(keys_distinct(pairs@)) by {
                    assert forall|a: int, b: int| 0 <= a < b < pairs@.len() implies pairs@[a].0@ != pairs@[b].0@ by {
                        let oa = if a < i { a } else { a + 1 };
                        let ob = if b < i { b } else { b + 1 };
                        assert(pairs@[a] == old_pairs[oa] && pairs@[b] == old_pairs[ob]);
                    }
                }
                assert forall|k: Seq<char>| m.contains_key(k) <==> exists|j: int| 0 <= j < pairs@.len() && pairs@[j].0@ == k by {
                    lemma_pairs_map(old_pairs, k);
                    if m.contains_key(k) {
                        let j = choose|j: int| 0 <= j < old_pairs.len() && old_pairs[j].0@ == k;
                        assert(j != i);
                        let pj = if j < i { j } else { j - 1 };
                        assert(pairs@[pj] == old_pairs[j]);
                    }
                    if exists|j: int| 0 <= j < pairs@.len() && pairs@[j].0@ == k {
                        let j = choose|j: int| 0 <= j < pairs@.len() && pairs@[j].0@ == k;
                        let oj = if j < i { j } else { j + 1 };
                        assert(pairs@[j] == old_pairs[oj]);
                    }
                }
                assert forall|k: Seq<char>, j: int| 0 <= j < pairs@.len() && pairs@[j].0@ == k implies m[k] == pairs@[j].1@ by {
                    lemma_pairs_map(old_pairs, k);
                    let oj = if j < i { j } else { j + 1 };
                    assert(pairs@[j] == old_pairs[oj]);
                }
                lemma_map_eq(old_pairs, pairs@, m);
            }
            self.pairs = pairs;
        } else {
            proof {
                lemma_pairs_map(old_pairs, key@);
                assert(pairs_map(old_pairs).remove(key@) =~= pairs_map(old_pairs));
            }
        }
        Ok(())
    }
}


// ---------------------------------------------------------------- base64

/// The base64 digit for a 6-bit value.
pub open spec fn b64_digit(i: int) -> char {
    if i < 26 {
        (65 + i) as char
    } else if i < 52 {
        (97 + i - 26) as char
    } else if i < 62 {
        (48 + i - 52) as char
    } else if i == 62 {
        '+'
    } else {
        '/'
    }
}

/// The value of a base64 digit; `None` for any other character.
pub open spec fn b64_value(c: char) -> Option<u32> {
    if 'A' <= c && c <= 'Z' {
        Some((c as u32 - 65) as u32)
    } else if 'a' <= c && c <= 'z' {
        Some((c as u32 - 97 + 26) as u32)
    } else if '0' <= c && c <= '9' {
        Some((c as u32 - 48 + 52) as u32)
    } else if c == '+' {
        Some(62)
    } else if c == '/' {
        Some(63)
    } else {
        None
    }
}

/// The 24-bit group of up to three bytes (missing bytes are zero).
pub open spec fn triple(b0: u8, b1: u8, b2: u8) -> u32 {
    ((b0 as u32) << 16u32) | ((b1 as u32) << 8u32) | (b2 as u32)
}

/// Base64 text of `d`: four digits per three bytes, `=` padding the last group.
pub open spec fn b64_encode_spec(d: Seq<u8>) -> Seq<char>
    decreases d.len(),
{
    if d.len() == 0 {
        Seq::empty()
    } else {
        let b1: u8 = if d.len() > 1 { d[1] } else { 0 };
        let b2: u8 = if d.len() > 2 { d[2] } else { 0 };
        let t = triple(d[0], b1, b2);
        let group = seq![
            b64_digit(((t >> 18u32) & 0x3Fu32) as int),
            b64_digit(((t >> 12u32) & 0x3Fu32) as int),
            if d.len() > 1 { b64_digit(((t >> 6u32) & 0x3Fu32) as int) } else { '=' },
            if d.len() > 2 { b64_digit((t & 0x3Fu32) as int) } else { '=' },
        ];
        if d.len() <= 3 { group } else { group + b64_encode_spec(d.skip(3)) }
    }
}

fn b64_char(i: u32) -> (c: char)
    requires
        i < 64,
    ensures
        c == b64_digit(i as int),
{
    if i < 26 {
        ((65 + i) as u8) as char
    } else if i < 52 {
        ((97 + i - 26) as u8) as char
    } else if i < 62 {
        ((48 + i - 52) as u8) as char
    } else if i == 62 {
        '+'
    } else {
        '/'
    }
}

/// Base64 text of the bytes (standard alphabet, `=` padding).
pub fn base64_encode(data: &[u8]) -> (r: String)
    ensures
        r@ == b64_encode_spec(data@),
{
    let mut result = String::new();
    let mut i: usize = 0;
    assert(data@.skip(0) =~= data@);
    while i < data.len()
        invariant
            i <= data@.len(),
            i % 3 == 0 || i == data@.len(),
            result@ + b64_encode_spec(data@.skip(i as int)) == b64_encode_spec(data@),
        decreases data@.len() - i,
    {
        let rest = data.len() - i;
        let b0 = data[i];
        let b1: u8 = if rest > 1 { data[i + 1] } else { 0 };
        let b2: u8 = if rest > 2 { data[i + 2] } else { 0 };
        let t: u32 = ((b0 as u32) << 16u32) | ((b1 as u32) << 8u32) | (b2 as u32);
        assert(((t >> 18u32) & 0x3Fu32) < 64 && ((t >> 12u32) & 0x3Fu32) < 64) by (bit_vector);
        assert(((t >> 6u32) & 0x3Fu32) < 64 && (t & 0x3Fu32) < 64) by (bit_vector);
        let ghost before = result@;
        let ghost d = data@.skip(i as int);
        push_char(&mut result, b64_char((t >> 18u32) & 0x3F));
        push_char(&mut result, b64_char((t >> 12u32) & 0x3F));
        if rest > 1 {
            push_char(&mut result, b64_char((t >> 6u32) & 0x3F));
        } else {
            push_char(&mut result, '=');
        }
        if rest > 2 {
            push_char(&mut result, b64_char(t & 0x3F));
        } else {
            push_char(&mut result, '=');
        }
        proof {
            assert(d[0] == b0);
            assert(rest > 1 ==> d[1] == b1);
            assert(rest > 2 ==> d[2] == b2);
            let group = result@.skip(before.len() as int);
            assert(result@ =~= before + group);
            if rest <= 3 {
                assert(group =~= b64_encode_spec(d));
                assert(data@.skip(data@.len() as int) =~= Seq::<u8>::empty());
            } else {
                assert(d.skip(3) =~= data@.skip(i + 3));
                assert(b64_encode_spec(d) =~= group + b64_encode_spec(data@.skip(i + 3)));
            }
        }
        if rest <= 3 {
            i = data.len();
        } else {
            i = i + 3;
        }
    }
    assert(data@.skip(data@.len() as int) =~= Seq::<u8>::empty());
    assert(result@ =~= b64_encode_spec(data@));
    result
}

/// Characters kept by the decoder: everything but `=` and white space.
pub open spec fn b64_kept(s: Seq<char>) -> Seq<char> {
    s.filter(|c: char| c != '=' && !crate::text::is_ws(c))
}

/// The value of up to four digits, first digit highest.
pub open spec fn digits_value(ds: Seq<u32>) -> u32
    decreases ds.len(),
{
    if ds.len() == 0 { 0 } else { (digits_value(ds.drop_last()) << 6u32) | ds.last() }
}

/// Bytes of a group of up to four digits: one byte always, a second from
/// three digits, a third from four.
pub open spec fn group_bytes(ds: Seq<u32>) -> Seq<u8> {
    let v = digits_value(ds);
    let pad = 4 - ds.len();
    seq![#[verifier::truncate] ((v >> 16u32) as u8)]
        + (if pad < 2 { seq![#[verifier::truncate] ((v >> 8u32) as u8)] } else { Seq::empty() })
        + (if pad < 1 { seq![#[verifier::truncate] (v as u8)] } else { Seq::empty() })
}

pub open spec fn digits_bytes(ds: Seq<u32>) -> Seq<u8>
    decreases ds.len(),
{
    if ds.len() == 0 {
        Seq::empty()
    } else if ds.len() <= 4 {
        group_bytes(ds)
    } else {
        group_bytes(ds.take(4)) + digits_bytes(ds.skip(4))
    }
}

/// What the decoder makes of base64 text: `None` when a kept character is no
/// base64 digit; otherwise groups of four digits give three bytes each, and a
/// short last group gives one byte per digit beyond the first (a single
/// digit gives one byte).
pub open spec fn b64_decode_spec(s: Seq<char>) -> Option<Seq<u8>> {
    let k = b64_kept(s);
    if exists|i: int| 0 <= i < k.len() && b64_value(k[i]) is None {
        None
    } else {
        Some(digits_bytes(k.map_values(|c: char| b64_value(c)->0)))
    }
}

fn b64_value_of(c: char) -> (r: Option<u32>)
    ensures
        r == b64_value(c),
{
    if 'A' <= c && c <= 'Z' {
        Some(c as u32 - 65)
    } else if 'a' <= c && c <= 'z' {
        Some(c as u32 - 97 + 26)
    } else if '0' <= c && c <= '9' {
        Some(c as u32 - 48 + 52)
    } else if c == '+' {
        Some(62)
    } else if c == '/' {
        Some(63)
    } else {
        None
    }
}

/// Decode base64 text (white space and `=` are skipped).
pub fn base64_decode(s: &str) -> (r: Result<Vec<u8>, String>)
    ensures
        match r {
            Ok(v) => b64_decode_spec(s@) == Some(v@),
            Err(e) => b64_decode_spec(s@) is None && e@ == "invalid base64"@,
        },
{
    let cs = crate::text::chars_of(s);
    let ghost pred = |c: char| c != '=' && !crate::text::is_ws(c);
    let mut digits: Vec<u32> = Vec::new();
    let mut k: usize = 0;
    let ghost mut kept: Seq<char> = Seq::empty();
    while k < cs.len()
        invariant
            cs@ == s@,
            k <= cs@.len(),
            pred == (|c: char| c != '=' && !crate::text::is_ws(c)),
            kept == s@.take(k as int).filter(pred),
            forall|i: int| 0 <= i < kept.len() ==> b64_value(kept[i]) is Some,
            digits@ == kept.map_values(|c: char| b64_value(c)->0),
            forall|i: int| 0 <= i < digits@.len() ==> digits@[i] < 64,
        decreases cs@.len() - k,
    {
        let c = cs[k];
        proof {
            assert(s@.take(k + 1) =~= s@.take(k as int).push(c));
            crate::store::lemma_filter_push(s@.take(k as int), pred, c);
        }
        if c != '=' && !crate::text::is_whitespace(c) {
            match b64_value_of(c) {
                Some(v) => {
                    digits.push(v);
                    proof {
                        kept = kept.push(c);
                    }
                    assert(digits@ =~= kept.map_values(|c: char| b64_value(c)->0));
                },
                None => {
                    proof {
                        reveal_strlit("invalid base64");
                        let kk = s@.take(k + 1).filter(pred);
                        assert(kk == kept.push(c));
                        assert(kk[kept.len() as int] == c);
                        lemma_filter_prefix_bad(s@, pred, k as int + 1, kept.len() as int);
                    }
                    return Err(owned("invalid base64"));
                },
            }
        }
        k = k + 1;
    }
    assert(s@.take(s@.len() as int) =~= s@);
    let mut result: Vec<u8> = Vec::new();
    let mut j: usize = 0;
    let n = digits.len();
    assert(digits@.skip(0) =~= digits@);
    while j < n
        invariant
            n == digits@.len(),
            j <= n,
            forall|i: int| 0 <= i < digits@.len() ==> digits@[i] < 64,
            result@ + digits_bytes(digits@.skip(j as int)) == digits_bytes(digits@),
        decreases n - j,
    {
        let m = if n - j < 4 { n - j } else { 4 };
        let ghost ds = digits@.skip(j as int);
        let ghost g = ds.take(m as int);
        let mut val: u32 = 0;
        let mut t: usize = 0;
        assert((1u32 << 0u32) == 1u32) by (bit_vector);
        while t < m
            invariant
                t <= m <= 4,
                j + m <= n,
                n == digits@.len(),
                g == digits@.skip(j as int).take(m as int),
                forall|i: int| 0 <= i < digits@.len() ==> digits@[i] < 64,
                val == digits_value(g.take(t as int)),
                val < (1u32 << (6 * t) as u32),
            decreases m - t,
        {
            let d = digits[j + t];
            assert(g.take(t + 1).drop_last() =~= g.take(t as int));
            assert(g.take(t + 1).last() == d);
            let old_val = val;
            val = (val << 6u32) | d;
            proof {
                lemma_shift_bound(old_val, d, t as u32);
            }
            t = t + 1;
        }
        assert(g.take(m as int) =~= g);
        let before = result.len();
        let ghost r0 = result@;
        let pad = 4 - m;
        result.push(#[verifier::truncate] ((val >> 16u32) as u8));
        if pad < 2 {
            result.push(#[verifier::truncate] ((val >> 8u32) as u8));
        }
        if pad < 1 {
            result.push(#[verifier::truncate] (val as u8));
        }
        proof {
            assert(result@ =~= r0 + group_bytes(g));
            if ds.len() <= 4 {
                assert(g =~= ds);
                assert(digits@.skip(j + m) =~= Seq::<u32>::empty());
            } else {
                assert(ds.skip(4) =~= digits@.skip(j + 4));
            }
        }
        j = j + m;
    }
    assert(digits@.skip(n as int) =~= Seq::<u32>::empty());
    proof {
        let kk = b64_kept(s@);
        assert(kk == kept);
        assert(!exists|i: int| 0 <= i < kk.len() && b64_value(kk[i]) is None);
    }
    Ok(result)
}

proof fn lemma_shift_bound(v: u32, d: u32, t: u32)
    requires
        t < 4,
        d < 64,
        v < (1u32 << (6 * t) as u32),
    ensures
        ((v << 6u32) | d) < (1u32 << (6 * (t + 1)) as u32),
{
    if t == 0 {
        assert(v < 1u32 ==> ((v << 6u32) | d) < 64u32) by (bit_vector)
            requires d < 64u32;
        assert((1u32 << 0u32) == 1u32) by (bit_vector);
        assert((1u32 << 6u32) == 64u32) by (bit_vector);
    } else if t == 1 {
        assert(v < 64u32 ==> ((v << 6u32) | d) < 4096u32) by (bit_vector)
            requires d < 64u32;
        assert((1u32 << 6u32) == 64u32) by (bit_vector);
        assert((1u32 << 12u32) == 4096u32) by (bit_vector);
    } else if t == 2 {
        assert(v < 4096u32 ==> ((v << 6u32) | d) < 262144u32) by (bit_vector)
            requires d < 64u32;
        assert((1u32 << 12u32) == 4096u32) by (bit_vector);
        assert((1u32 << 18u32) == 262144u32) by (bit_vector);
    } else {
        assert(v < 262144u32 ==> ((v << 6u32) | d) < 16777216u32) by (bit_vector)
            requires d < 64u32;
        assert((1u32 << 18u32) == 262144u32) by (bit_vector);
        assert((1u32 << 24u32) == 16777216u32) by (bit_vector);
    }
}

proof fn lemma_filter_prefix_bad(s: Seq<char>, pred: spec_fn(char) -> bool, k: int, i: int)
    requires
        0 <= k <= s.len(),
        0 <= i < s.take(k).filter(pred).len(),
        b64_value(s.take(k).filter(pred)[i]) is None,
    ensures
        exists|j: int| 0 <= j < s.filter(pred).len() && b64_value(s.filter(pred)[j]) is None,
    decreases s.len() - k,
{
    if k < s.len() {
        assert(s.take(k + 1) =~= s.take(k).push(s[k]));
        crate::store::lemma_filter_push(s.take(k), pred, s[k]);
        let f = s.take(k).filter(pred);
        if pred(s[k]) {
            assert(f.push(s[k])[i] == f[i]);
        }
        lemma_filter_prefix_bad(s, pred, k + 1, i);
    } else {
        assert(s.take(k) =~= s);
    }
}


// ---------------------------------------------------------------- base64 round trip

proof fn lemma_digit_roundtrip(i: u32)
    requires
        i < 64,
    ensures
        b64_value(b64_digit(i as int)) == Some(i),
        b64_digit(i as int) != '=',
        !crate::text::is_ws(b64_digit(i as int)),
{
}

proof fn lemma_group_roundtrip(b0: u8, b1: u8, b2: u8)
    ensures
        ({
            let t = triple(b0, b1, b2);
            let ds = seq![(t >> 18u32) & 0x3Fu32, (t >> 12u32) & 0x3Fu32, (t >> 6u32) & 0x3Fu32, t & 0x3Fu32];
            group_bytes(ds) == seq![b0, b1, b2]
        }),
{
    let t = triple(b0, b1, b2);
    let d0 = (t >> 18u32) & 0x3Fu32;
    let d1 = (t >> 12u32) & 0x3Fu32;
    let d2 = (t >> 6u32) & 0x3Fu32;
    let d3 = t & 0x3Fu32;
    let ds = seq![d0, d1, d2, d3];
    assert(ds.drop_last() =~= seq![d0, d1, d2]);
    assert(ds.drop_last().drop_last() =~= seq![d0, d1]);
    assert(ds.drop_last().drop_last().drop_last() =~= seq![d0]);
    assert(ds.drop_last().drop_last().drop_last().drop_last() =~= Seq::<u32>::empty());
    let v = (((((0u32 << 6u32) | d0) << 6u32) | d1) << 6u32 | d2) << 6u32 | d3;
    let s1 = seq![d0];
    let s2 = seq![d0, d1];
    let s3 = seq![d0, d1, d2];
    assert(s1.drop_last() =~= Seq::<u32>::empty());
    assert(s2.drop_last() =~= s1);
    assert(s3.drop_last() =~= s2);
    assert(ds.drop_last() =~= s3);
    assert(digits_value(Seq::<u32>::empty()) == 0);
    assert(digits_value(s1) == (0u32 << 6u32) | d0);
    assert(digits_value(s2) == (digits_value(s1) << 6u32) | d1);
    assert(digits_value(s3) == (digits_value(s2) << 6u32) | d2);
    assert(digits_value(ds) == (digits_value(s3) << 6u32) | d3);
    assert(digits_value(ds) == v);
    assert(v == t && #[verifier::truncate] ((v >> 16u32) as u8) == b0 && #[verifier::truncate] ((v >> 8u32) as u8) == b1
        && #[verifier::truncate] (v as u8) == b2) by (bit_vector)
        requires
            t == ((b0 as u32) << 16u32) | ((b1 as u32) << 8u32) | (b2 as u32),
            d0 == (t >> 18u32) & 0x3Fu32,
            d1 == (t >> 12u32) & 0x3Fu32,
            d2 == (t >> 6u32) & 0x3Fu32,
            d3 == t & 0x3Fu32,
            v == (((((0u32 << 6u32) | d0) << 6u32) | d1) << 6u32 | d2) << 6u32 | d3;
    assert(group_bytes(ds) =~= seq![b0, b1, b2]);
}

proof fn lemma_filter_all<A>(s: Seq<A>, pred: spec_fn(A) -> bool)
    requires
        forall|i: int| 0 <= i < s.len() ==> pred(s[i]),
    ensures
        s.filter(pred) == s,
    decreases s.len(),
{
    if s.len() > 0 {
        let p = s.drop_last();
        lemma_filter_all(p, pred);
        assert(s =~= p.push(s.last()));
        crate::store::lemma_filter_push(p, pred, s.last());
    } else {
        assert(s.filter(pred) =~= s) by {
            reveal(Seq::filter);
        }
    }
}

/// The digit values of encoded text, as the decoder reads them.
pub open spec fn encoded_values(d: Seq<u8>) -> Seq<u32> {
    b64_encode_spec(d).map_values(|c: char| b64_value(c)->0)
}

proof fn lemma_encoded_digits(d: Seq<u8>)
    requires
        d.len() % 3 == 0,
    ensures
        forall|i: int| 0 <= i < b64_encode_spec(d).len() ==> b64_value(#[trigger] b64_encode_spec(d)[i]) is Some
            && b64_encode_spec(d)[i] != '=' && !crate::text::is_ws(b64_encode_spec(d)[i]),
        digits_bytes(encoded_values(d)) == d,
    decreases d.len(),
{
    if d.len() > 0 {
        let t = triple(d[0], d[1], d[2]);
        assert(((t >> 18u32) & 0x3Fu32) < 64 && ((t >> 12u32) & 0x3Fu32) < 64) by (bit_vector);
        assert(((t >> 6u32) & 0x3Fu32) < 64 && (t & 0x3Fu32) < 64) by (bit_vector);
        let ds = seq![(t >> 18u32) & 0x3Fu32, (t >> 12u32) & 0x3Fu32, (t >> 6u32) & 0x3Fu32, t & 0x3Fu32];
        lemma_digit_roundtrip(ds[0]);
        lemma_digit_roundtrip(ds[1]);
        lemma_digit_roundtrip(ds[2]);
        lemma_digit_roundtrip(ds[3]);
        lemma_group_roundtrip(d[0], d[1], d[2]);
        let group = seq![b64_digit(ds[0] as int), b64_digit(ds[1] as int), b64_digit(ds[2] as int), b64_digit(ds[3] as int)];
        let rest = d.skip(3);
        if d.len() == 3 {
            assert(b64_encode_spec(d) == group);
            assert(encoded_values(d) =~= ds);
            assert(digits_bytes(ds) == group_bytes(ds));
            assert(d =~= seq![d[0], d[1], d[2]]);
        } else {
            lemma_encoded_digits(rest);
            assert(b64_encode_spec(d) == group + b64_encode_spec(rest));
            assert(encoded_values(d) =~= ds + encoded_values(rest));
            let ev = encoded_values(d);
            assert(ev.take(4) =~= ds);
            assert(ev.skip(4) =~= encoded_values(rest));
            assert(digits_bytes(ev) == group_bytes(ds) + digits_bytes(encoded_values(rest)));
            assert(d =~= seq![d[0], d[1], d[2]] + rest);
        }
    }
}

/// Decoding what was encoded gives the bytes back, for whole three-byte
/// groups (a padded last group does not come back: one byte `A` encodes to
/// `QQ==`, which decodes to a single zero byte).
pub proof fn law_base64_round_trip(d: Seq<u8>)
    requires
        d.len() % 3 == 0,
    ensures
        b64_decode_spec(b64_encode_spec(d)) == Some(d),
{
    lemma_encoded_digits(d);
    let e = b64_encode_spec(d);
    let pred = |c: char| c != '=' && !crate::text::is_ws(c);
    lemma_filter_all(e, pred);
    assert(b64_kept(e) == e);
}


// ---------------------------------------------------------------- stored configuration

/// Name under which the configuration is kept in the secrets store.
pub const AI_CONFIG_KEY: &'static str = "ai_config";

/// A JSON value of a flat object, as the configuration reader sees it.
#[derive(Debug, Clone, PartialEq)]
pub enum JsonScalar {
    Text(String),
    Flag(bool),
    /// Any other JSON value.
    Other,
}

pub enum JsonScalarView {
    Text(Seq<char>),
    Flag(bool),
    Other,
}

pub open spec fn scalar_view(v: JsonScalar) -> JsonScalarView {
    match v {
        JsonScalar::Text(s) => JsonScalarView::Text(s@),
        JsonScalar::Flag(b) => JsonScalarView::Flag(b),
        JsonScalar::Other => JsonScalarView::Other,
    }
}

pub open spec fn fields_view(v: Seq<(String, JsonScalar)>) -> Seq<(Seq<char>, JsonScalarView)> {
    v.map_values(|e: (String, JsonScalar)| (e.0@, scalar_view(e.1)))
}

/// What serde_json reads from `text` as a JSON object: its members in order
/// (a repeated key keeps its last value), or `None` when `text` is no JSON object.
pub uninterp spec fn json_object_members(text: Seq<char>) -> Option<Seq<(Seq<char>, JsonScalarView)>>;

/// What serde_json writes for an object collected from these members: a
/// `Map` keeps one value per name (the last given), and prints its members
/// sorted by name.
pub uninterp spec fn json_object_text(members: Seq<(Seq<char>, JsonScalarView)>) -> Seq<char>;

/// The members of a JSON object text (serde_json's `from_str` into a
/// `Map<String, Value>`), each value reduced to a string, a boolean or
/// anything else. The claim: the result is the name `json_object_members`
/// applied to the text.
#[verifier::external_body]
fn parse_json_object(text: &str) -> (r: Option<Vec<(String, JsonScalar)>>)
    ensures
        match r {
            Some(v) => json_object_members(text@) == Some(fields_view(v@)),
            None => json_object_members(text@) is None,
        },
{
    let map = serde_json::from_str::<serde_json::Map<String, serde_json::Value>>(text).ok()?;
    Some(map.into_iter().map(|(k, v)| (k, match v {
        serde_json::Value::String(s) => JsonScalar::Text(s),
        serde_json::Value::Bool(b) => JsonScalar::Flag(b),
        _ => JsonScalar::Other,
    })).collect())
}

/// serde_json reads `text` as an object that gives every name the value the
/// members last gave it.
pub open spec fn reads_back(text: Seq<char>, members: Seq<(Seq<char>, JsonScalarView)>) -> bool {
    json_object_members(text) matches Some(fs) && forall|k: Seq<char>| #[trigger] member(fs, k) == member(members, k)
}

/// serde_json's `to_string` of the object `Value` whose `Map<String, Value>`
/// is collected from the members (a string, a boolean, anything else as
/// null). The claims: the result is the name `json_object_text` of the
/// members; and serde_json's `from_str` reads it back as an object that
/// gives every name the value the members last gave it (serde_json writes
/// each string escaped so that its reader gives the same string back, and a
/// `Map` holds one value per name).
#[verifier::external_body]
fn write_json_object(members: &Vec<(String, JsonScalar)>) -> (r: String)
    ensures
        r@ == json_object_text(fields_view(members@)),
        reads_back(r@, fields_view(members@)),
{
    let map: serde_json::Map<String, serde_json::Value> = members.iter().map(|(k, v)| (k.clone(), match v {
        JsonScalar::Text(s) => serde_json::Value::String(s.clone()),
        JsonScalar::Flag(b) => serde_json::Value::Bool(*b),
        JsonScalar::Other => serde_json::Value::Null,
    })).collect();
    serde_json::Value::Object(map).to_string()
}

/// The configuration as a mathematical value.
pub struct AiConfigView {
    pub base_url: Seq<char>,
    pub model: Seq<char>,
    pub api_key: Seq<char>,
    pub embedding_base_url: Seq<char>,
    pub embedding_model: Seq<char>,
    pub embedding_api_key: Seq<char>,
    pub enabled: bool,
}

impl View for AiConfig {
    type V = AiConfigView;

    open spec fn view(&self) -> AiConfigView {
        AiConfigView {
            base_url: self.base_url@,
            model: self.model@,
            api_key: self.api_key@,
            embedding_base_url: self.embedding_base_url@,
            embedding_model: self.embedding_model@,
            embedding_api_key: self.embedding_api_key@,
            enabled: self.enabled,
        }
    }
}

/// The last member named `name`.
pub open spec fn member(fields: Seq<(Seq<char>, JsonScalarView)>, name: Seq<char>) -> Option<JsonScalarView>
    decreases fields.len(),
{
    if fields.len() == 0 {
        None
    } else if fields.last().0 == name {
        Some(fields.last().1)
    } else {
        member(fields.drop_last(), name)
    }
}

pub open spec fn text_member(fields: Seq<(Seq<char>, JsonScalarView)>, name: Seq<char>) -> Option<Seq<char>> {
    match member(fields, name) {
        Some(JsonScalarView::Text(s)) => Some(s),
        _ => None,
    }
}

/// The configuration an object's members describe: every field must be
/// there with its type (strings, and a boolean `enabled`); other members are
/// ignored.
pub open spec fn config_from(fields: Seq<(Seq<char>, JsonScalarView)>) -> Option<AiConfigView> {
    match (
        text_member(fields, "base_url"@),
        text_member(fields, "model"@),
        text_member(fields, "api_key"@),
        text_member(fields, "embedding_base_url"@),
        text_member(fields, "embedding_model"@),
        text_member(fields, "embedding_api_key"@),
        member(fields, "enabled"@),
    ) {
        (Some(a), Some(b), Some(c), Some(d), Some(e), Some(f), Some(JsonScalarView::Flag(g))) => Some(AiConfigView {
            base_url: a,
            model: b,
            api_key: c,
            embedding_base_url: d,
            embedding_model: e,
            embedding_api_key: f,
            enabled: g,
        }),
        _ => None,
    }
}

pub open spec fn default_config() -> AiConfigView {
    AiConfigView {
        base_url: Seq::empty(),
        model: Seq::empty(),
        api_key: Seq::empty(),
        embedding_base_url: Seq::empty(),
        embedding_model: Seq::empty(),
        embedding_api_key: Seq::empty(),
        enabled: false,
    }
}

/// The configuration kept in a secrets store: the stored text read as a
/// configuration, or the empty configuration when it is missing or unreadable.
pub open spec fn stored_config(entries: Map<Seq<char>, Seq<char>>) -> AiConfigView {
    if entries.contains_key("ai_config"@) {
        match json_object_members(entries["ai_config"@]) {
            Some(fields) => match config_from(fields) {
                Some(c) => c,
                None => default_config(),
            },
            None => default_config(),
        }
    } else {
        default_config()
    }
}

fn member_of<'a>(fields: &'a Vec<(String, JsonScalar)>, name: &str) -> (r: Option<&'a JsonScalar>)
    ensures
        match r {
            Some(v) => member(fields_view(fields@), name@) == Some(scalar_view(*v)),
            None => member(fields_view(fields@), name@) is None,
        },
{
    let mut i = fields.len();
    assert(fields_view(fields@).take(i as int) =~= fields_view(fields@));
    while i > 0
        invariant
            i <= fields@.len(),
            member(fields_view(fields@), name@) == member(fields_view(fields@).take(i as int), name@),
        decreases i,
    {
        let ghost fv = fields_view(fields@).take(i as int);
        assert(fv.drop_last() =~= fields_view(fields@).take(i - 1));
        if crate::text::same_text(fields[i - 1].0.as_str(), name) {
            return Some(&fields[i - 1].1);
        }
        i = i - 1;
    }
    None
}

fn text_of(fields: &Vec<(String, JsonScalar)>, name: &str) -> (r: Option<String>)
    ensures
        match r {
            Some(v) => text_member(fields_view(fields@), name@) == Some(v@),
            None => text_member(fields_view(fields@), name@) is None,
        },
{
    match member_of(fields, name) {
        Some(JsonScalar::Text(s)) => Some(s.clone()),
        _ => None,
    }
}

fn config_of(fields: &Vec<(String, JsonScalar)>) -> (r: Option<AiConfig>)
    ensures
        match r {
            Some(c) => config_from(fields_view(fields@)) == Some(c@),
            None => config_from(fields_view(fields@)) is None,
        },
{
    proof {
        reveal_strlit("base_url");
        reveal_strlit("model");
        reveal_strlit("api_key");
        reveal_strlit("embedding_base_url");
        reveal_strlit("embedding_model");
        reveal_strlit("embedding_api_key");
        reveal_strlit("enabled");
    }
    let a = text_of(fields, "base_url");
    let b = text_of(fields, "model");
    let c = text_of(fields, "api_key");
    let d = text_of(fields, "embedding_base_url");
    let e = text_of(fields, "embedding_model");
    let f = text_of(fields, "embedding_api_key");
    let g = match member_of(fields, "enabled") {
        Some(JsonScalar::Flag(v)) => Some(*v),
        _ => None,
    };
    match (a, b, c, d, e, f, g) {
        (Some(a), Some(b), Some(c), Some(d), Some(e), Some(f), Some(g)) => Some(AiConfig {
            base_url: a,
            model: b,
            api_key: c,
            embedding_base_url: d,
            embedding_model: e,
            embedding_api_key: f,
            enabled: g,
        }),
        _ => None,
    }
}

fn empty_config() -> (c: AiConfig)
    ensures
        c@ == default_config(),
{
    AiConfig {
        base_url: String::new(),
        model: String::new(),
        api_key: String::new(),
        embedding_base_url: String::new(),
        embedding_model: String::new(),
        embedding_api_key: String::new(),
        enabled: false,
    }
}

/// The configuration kept in the secrets store (the empty one when missing
/// or unreadable).
pub fn load_config<K: SecretsKeeper>(keeper: &K) -> (c: AiConfig)
    ensures
        c@ == stored_config(keeper.entries()),
{
    proof {
        reveal_strlit("ai_config");
    }
    let text = match keeper.load(AI_CONFIG_KEY) {
        Some(t) => t,
        None => return empty_config(),
    };
    let fields = match parse_json_object(text.as_str()) {
        Some(f) => f,
        None => return empty_config(),
    };
    match config_of(&fields) {
        Some(c) => c,
        None => empty_config(),
    }
}

/// The members a configuration is written as, one per field.
pub open spec fn config_members(c: AiConfigView) -> Seq<(Seq<char>, JsonScalarView)> {
    seq![
        ("base_url"@, JsonScalarView::Text(c.base_url)),
        ("model"@, JsonScalarView::Text(c.model)),
        ("api_key"@, JsonScalarView::Text(c.api_key)),
        ("embedding_base_url"@, JsonScalarView::Text(c.embedding_base_url)),
        ("embedding_model"@, JsonScalarView::Text(c.embedding_model)),
        ("embedding_api_key"@, JsonScalarView::Text(c.embedding_api_key)),
        ("enabled"@, JsonScalarView::Flag(c.enabled)),
    ]
}

/// The JSON text of a configuration, as serde_json writes its members.
pub open spec fn config_json(c: AiConfigView) -> Seq<char> {
    json_object_text(config_members(c))
}

/// A member of another name, last in a prefix, does not change the lookup.
proof fn lemma_member_skip(s: Seq<(Seq<char>, JsonScalarView)>, j: int, name: Seq<char>)
    requires
        0 < j <= s.len(),
        s[j - 1].0 != name,
    ensures
        member(s.take(j), name) == member(s.take(j - 1), name),
{
    assert(s.take(j).drop_last() =~= s.take(j - 1));
}

/// Every field of a configuration is found again among its members.
proof fn lemma_config_members(c: AiConfigView)
    ensures
        config_from(config_members(c)) == Some(c),
{
    reveal_strlit("base_url");
    reveal_strlit("model");
    reveal_strlit("api_key");
    reveal_strlit("embedding_base_url");
    reveal_strlit("embedding_model");
    reveal_strlit("embedding_api_key");
    reveal_strlit("enabled");
    let m = config_members(c);
    assert("api_key"@[0] != "enabled"@[0]);
    assert("base_url"@.len() == 8 && "model"@.len() == 5 && "api_key"@.len() == 7);
    assert("embedding_base_url"@.len() == 18 && "embedding_model"@.len() == 15);
    assert("embedding_api_key"@.len() == 17 && "enabled"@.len() == 7);
    assert(member(m.take(1), "base_url"@) == Some(JsonScalarView::Text(c.base_url))) by {
        assert(m.take(1).drop_last() =~= m.take(0));
    }
    lemma_member_skip(m, 2, "base_url"@);
    lemma_member_skip(m, 3, "base_url"@);
    lemma_member_skip(m, 4, "base_url"@);
    lemma_member_skip(m, 5, "base_url"@);
    lemma_member_skip(m, 6, "base_url"@);
    lemma_member_skip(m, 7, "base_url"@);
    assert(m.take(7) =~= m);
    assert(member(m.take(2), "model"@) == Some(JsonScalarView::Text(c.model))) by {
        assert(m.take(2).drop_last() =~= m.take(1));
    }
    lemma_member_skip(m, 3, "model"@);
    lemma_member_skip(m, 4, "model"@);
    lemma_member_skip(m, 5, "model"@);
    lemma_member_skip(m, 6, "model"@);
    lemma_member_skip(m, 7, "model"@);
    assert(m.take(7) =~= m);
    assert(member(m.take(3), "api_key"@) == Some(JsonScalarView::Text(c.api_key))) by {
        assert(m.take(3).drop_last() =~= m.take(2));
    }
    lemma_member_skip(m, 4, "api_key"@);
    lemma_member_skip(m, 5, "api_key"@);
    lemma_member_skip(m, 6, "api_key"@);
    lemma_member_skip(m, 7, "api_key"@);
    assert(m.take(7) =~= m);
    assert(member(m.take(4), "embedding_base_url"@) == Some(JsonScalarView::Text(c.embedding_base_url))) by {
        assert(m.take(4).drop_last() =~= m.take(3));
    }
    lemma_member_skip(m, 5, "embedding_base_url"@);
    lemma_member_skip(m, 6, "embedding_base_url"@);
    lemma_member_skip(m, 7, "embedding_base_url"@);
    assert(m.take(7) =~= m);
    assert(member(m.take(5), "embedding_model"@) == Some(JsonScalarView::Text(c.embedding_model))) by {
        assert(m.take(5).drop_last() =~= m.take(4));
    }
    lemma_member_skip(m, 6, "embedding_model"@);
    lemma_member_skip(m, 7, "embedding_model"@);
    assert(m.take(7) =~= m);
    assert(member(m.take(6), "embedding_api_key"@) == Some(JsonScalarView::Text(c.embedding_api_key))) by {
        assert(m.take(6).drop_last() =~= m.take(5));
    }
    lemma_member_skip(m, 7, "embedding_api_key"@);
    assert(m.take(7) =~= m);
    assert(member(m.take(7), "enabled"@) == Some(JsonScalarView::Flag(c.enabled))) by {
        assert(m.take(7).drop_last() =~= m.take(6));
    }
    assert(m.take(7) =~= m);
}

/// The configuration written as serde_json text, together with what serde_json
/// reads back from that text: the same configuration.
fn config_text(c: &AiConfig) -> (r: String)
    ensures
        r@ == config_json(c@),
        json_object_members(r@) matches Some(fs) && config_from(fs) == Some(c@),
{
    proof {
        reveal_strlit("base_url");
        reveal_strlit("model");
        reveal_strlit("api_key");
        reveal_strlit("embedding_base_url");
        reveal_strlit("embedding_model");
        reveal_strlit("embedding_api_key");
        reveal_strlit("enabled");
    }
    let members: Vec<(String, JsonScalar)> = vec![
        (owned("base_url"), JsonScalar::Text(c.base_url.clone())),
        (owned("model"), JsonScalar::Text(c.model.clone())),
        (owned("api_key"), JsonScalar::Text(c.api_key.clone())),
        (owned("embedding_base_url"), JsonScalar::Text(c.embedding_base_url.clone())),
        (owned("embedding_model"), JsonScalar::Text(c.embedding_model.clone())),
        (owned("embedding_api_key"), JsonScalar::Text(c.embedding_api_key.clone())),
        (owned("enabled"), JsonScalar::Flag(c.enabled)),
    ];
    proof {
        assert(fields_view(members@) =~= config_members(c@));
        lemma_config_members(c@);
    }
    let r = write_json_object(&members);
    proof {
        let fs = json_object_members(r@)->0;
        assert(text_member(fs, "base_url"@) == text_member(config_members(c@), "base_url"@));
        assert(text_member(fs, "model"@) == text_member(config_members(c@), "model"@));
        assert(text_member(fs, "api_key"@) == text_member(config_members(c@), "api_key"@));
        assert(text_member(fs, "embedding_base_url"@) == text_member(config_members(c@), "embedding_base_url"@));
        assert(text_member(fs, "embedding_model"@) == text_member(config_members(c@), "embedding_model"@));
        assert(text_member(fs, "embedding_api_key"@) == text_member(config_members(c@), "embedding_api_key"@));
        assert(member(fs, "enabled"@) == member(config_members(c@), "enabled"@));
    }
    r
}

/// Keep the configuration in the secrets store, as JSON.
pub fn save_config<K: SecretsKeeper>(keeper: &mut K, config: &AiConfig) -> (r: Result<(), String>)
    ensures
        r is Ok ==> final(keeper).entries() == old(keeper).entries().insert("ai_config"@, config_json(config@)),
        r is Ok ==> stored_config(final(keeper).entries()) == config@,
        old(keeper).saves_always() ==> r is Ok && final(keeper).saves_always(),
        r is Err ==> final(keeper).entries() == old(keeper).entries(),
{
    let json = config_text(config);
    proof {
        reveal_strlit("ai_config");
    }
    keeper.save(AI_CONFIG_KEY, json.as_str())
}

/// The chat key can be masked (see `mask_key`).
pub open spec fn maskable(key: Seq<char>) -> bool {
    &&& encode_utf8(key).len() <= usize::MAX
    &&& encode_utf8(key).len() > 4 ==> is_char_boundary(encode_utf8(key), encode_utf8(key).len() - 4)
}

/// The configuration after a patch, as a value.
pub open spec fn patched(c: AiConfigView, p: AiConfigPatch) -> AiConfigView {
    AiConfigView {
        base_url: if p.base_url is Some { p.base_url->0@ } else { c.base_url },
        model: if p.model is Some { p.model->0@ } else { c.model },
        api_key: if p.api_key is Some { p.api_key->0@ } else { c.api_key },
        embedding_base_url: if p.embedding_base_url is Some { p.embedding_base_url->0@ } else { c.embedding_base_url },
        embedding_model: if p.embedding_model is Some { p.embedding_model->0@ } else { c.embedding_model },
        embedding_api_key: if p.embedding_api_key is Some { p.embedding_api_key->0@ } else { c.embedding_api_key },
        enabled: if p.enabled is Some { p.enabled->0 } else { c.enabled },
    }
}

/// The status of a configuration value (see `to_status`).
pub open spec fn status_of(st: AiStatusPayload, c: AiConfigView) -> bool {
    &&& st.chat.configured == (c.base_url.len() > 0 && c.model.len() > 0 && c.api_key.len() > 0)
    &&& opt_text_view(st.chat.model) == opt_nonempty(c.model)
    &&& opt_text_view(st.chat.base_url) == opt_nonempty(c.base_url)
    &&& st.embedding.configured == (c.embedding_base_url.len() > 0 && c.embedding_model.len() > 0
        && c.embedding_api_key.len() > 0)
    &&& opt_text_view(st.embedding.model) == opt_nonempty(c.embedding_model)
    &&& opt_text_view(st.embedding.base_url) == opt_nonempty(c.embedding_base_url)
    &&& st.enabled == c.enabled
    &&& opt_text_view(st.key_mask) == mask_spec(c.api_key)
}

/// Save a configuration patch (only the fields given change) and return the
/// new status; a failed save changes nothing and its message comes back.
pub fn set_ai_config_cmd<K: SecretsKeeper>(keeper: &mut K, patch: AiConfigPatch) -> (r: Result<AiStatusPayload, String>)
    requires
        maskable(patched(stored_config(old(keeper).entries()), patch).api_key),
    ensures
        match r {
            Ok(st) => {
                let c = patched(stored_config(old(keeper).entries()), patch);
                &&& final(keeper).entries() == old(keeper).entries().insert("ai_config"@, config_json(c))
                &&& stored_config(final(keeper).entries()) == c
                &&& status_of(st, c)
            },
            Err(_) => final(keeper).entries() == old(keeper).entries(),
        },
        old(keeper).saves_always() ==> r is Ok && final(keeper).saves_always(),
{
    let mut config = load_config(keeper);
    let ghost p = patch;
    apply_ai_patch(&mut config, patch);
    assert(config@ == patched(stored_config(old(keeper).entries()), p));
    match save_config(keeper, &config) {
        Ok(()) => {},
        Err(e) => return Err(e),
    }
    Ok(to_status(&config))
}

/// The status of the stored configuration.
pub fn get_ai_status_cmd<K: SecretsKeeper>(keeper: &K) -> (st: AiStatusPayload)
    requires
        maskable(stored_config(keeper.entries()).api_key),
    ensures
        status_of(st, stored_config(keeper.entries())),
{
    let config = load_config(keeper);
    to_status(&config)
}


/// Whether a key can be shown masked (see `maskable`).
pub fn key_maskable(key: &str) -> (r: bool)
    ensures
        r == maskable(key@),
{
    let bytes = key.as_bytes();
    let n = bytes.len();
    proof {
        assert(key.spec_bytes() == encode_utf8(key@));
        assert(n == encode_utf8(key@).len());
    }
    n <= 4 || key.is_char_boundary(n - 4)
}

/// The message when the stored key cannot be shown masked.
pub open spec fn unmaskable_message() -> Seq<char> {
    "密钥格式异常，无法显示"@
}

/// The status of the stored configuration, or a message (and nothing shown)
/// when its key cannot be masked.
pub fn ai_status_checked<K: SecretsKeeper>(keeper: &K) -> (r: Result<AiStatusPayload, String>)
    ensures
        match r {
            Ok(st) => maskable(stored_config(keeper.entries()).api_key) && status_of(st, stored_config(keeper.entries())),
            Err(e) => !maskable(stored_config(keeper.entries()).api_key) && e@ == unmaskable_message(),
        },
{
    let config = load_config(keeper);
    if !key_maskable(config.api_key.as_str()) {
        return Err(owned("密钥格式异常，无法显示"));
    }
    Ok(get_ai_status_cmd(keeper))
}

/// Save a configuration patch as `set_ai_config_cmd` does, refusing (with
/// nothing changed) a patch whose resulting key cannot be shown masked.
pub fn set_ai_config_checked<K: SecretsKeeper>(keeper: &mut K, patch: AiConfigPatch) -> (r: Result<AiStatusPayload, String>)
    ensures
        !maskable(patched(stored_config(old(keeper).entries()), patch).api_key) ==> (r matches Err(e)
            && e@ == unmaskable_message() && final(keeper).entries() == old(keeper).entries()),
        maskable(patched(stored_config(old(keeper).entries()), patch).api_key) ==> match r {
            Ok(st) => {
                let c = patched(stored_config(old(keeper).entries()), patch);
                &&& final(keeper).entries() == old(keeper).entries().insert("ai_config"@, config_json(c))
                &&& stored_config(final(keeper).entries()) == c
                &&& status_of(st, c)
            },
            Err(_) => final(keeper).entries() == old(keeper).entries(),
        },
        maskable(patched(stored_config(old(keeper).entries()), patch).api_key) && old(keeper).saves_always()
            ==> r is Ok && final(keeper).saves_always(),
{
    let mut config = load_config(keeper);
    let ghost p = patch;
    let key = match &patch.api_key {
        Some(k) => k.clone(),
        None => config.api_key.clone(),
    };
    assert(key@ == patched(stored_config(old(keeper).entries()), p).api_key);
    if !key_maskable(key.as_str()) {
        return Err(owned("密钥格式异常，无法显示"));
    }
    set_ai_config_cmd(keeper, patch)
}

// ---------------------------------------------------------------- connection test

/// `s` without its trailing `/` characters.
pub open spec fn trim_slashes(s: Seq<char>) -> Seq<char>
    decreases s.len(),
{
    if s.len() > 0 && s.last() == '/' { trim_slashes(s.drop_last()) } else { s }
}

fn trim_end_slashes(s: &str) -> (r: String)
    ensures
        r@ == trim_slashes(s@),
{
    let cs = crate::text::chars_of(s);
    let mut n = cs.len();
    assert(s@.take(n as int) =~= s@);
    while n > 0 && cs[n - 1] == '/'
        invariant
            n <= cs@.len(),
            cs@ == s@,
            trim_slashes(s@) == trim_slashes(s@.take(n as int)),
        decreases n,
    {
        assert(s@.take(n as int).drop_last() =~= s@.take(n - 1));
        n = n - 1;
    }
    let r = crate::text::string_of_range(&cs, 0, n);
    assert(r@ =~= s@.take(n as int));
    r
}

/// Where a connection test goes: the track's address with `/chat/completions`
/// (trailing slashes dropped), its model and its key; or the failed result
/// for an unknown track or a track not fully configured.
pub fn connection_target(config: &AiConfig, track: &str) -> (r: Result<(String, String, String), TestResult>)
    ensures
        match r {
            Ok((url, model, key)) => {
                let (b, m, k) = if track@ == "chat"@ {
                    (config.base_url@, config.model@, config.api_key@)
                } else {
                    (config.embedding_base_url@, config.embedding_model@, config.embedding_api_key@)
                };
                &&& (track@ == "chat"@ || track@ == "embedding"@)
                &&& b.len() > 0 && m.len() > 0 && k.len() > 0
                &&& url@ == trim_slashes(b) + "/chat/completions"@
                &&& model@ == m && key@ == k
            },
            Err(t) => !t.ok && if track@ != "chat"@ && track@ != "embedding"@ {
                t.message@ == "未知 track: "@ + track@
            } else {
                t.message@ == track@ + " 轨未配置完整"@
            },
        },
{
    proof {
        reveal_strlit("chat");
        reveal_strlit("embedding");
        reveal_strlit("未知 track: ");
        reveal_strlit(" 轨未配置完整");
        reveal_strlit("/chat/completions");
    }
    let (base, model, key) = if crate::text::same_text(track, "chat") {
        (&config.base_url, &config.model, &config.api_key)
    } else if crate::text::same_text(track, "embedding") {
        (&config.embedding_base_url, &config.embedding_model, &config.embedding_api_key)
    } else {
        return Err(TestResult { ok: false, message: concat("未知 track: ", track) });
    };
    if base.as_str().is_empty() || model.as_str().is_empty() || key.as_str().is_empty() {
        return Err(TestResult { ok: false, message: concat(track, " 轨未配置完整") });
    }
    let trimmed = trim_end_slashes(base.as_str());
    let url = concat(trimmed.as_str(), "/chat/completions");
    Ok((url, model.clone(), key.clone()))
}


/// Where a knowledge search hit came from.
#[derive(Debug, Clone, Copy, PartialEq, Eq, Structural)]
pub enum SearchSource {
    /// The local text scan.
    Local,
    /// The vector search, above its noise threshold.
    Ai,
}

/// One knowledge search hit.
#[derive(Debug, Clone, PartialEq)]
pub struct HybridResult {
    pub id: String,
    pub source: SearchSource,
}

} // verus!
