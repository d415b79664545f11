//! The command cache: stored hashes of the files a command last succeeded on.
use vstd::prelude::*;
use sha2::Digest;
use crate::hooks::ChangedFile;
use crate::strmap::StrMap;

verus! {

/// The SHA-256 digest that `sha2::Sha256` computes for a message.
pub uninterp spec fn sha256_digest(data: Seq<u8>) -> Seq<u8>;

/// `sha2::Sha256::digest`: the 32-byte SHA-256 digest of `data`. Claims that the
/// digest depends on the message alone.
#[verifier::external_body]
fn sha256(data: &[u8]) -> (res: Vec<u8>)
    ensures
        res@ == sha256_digest(data@),
        res@.len() == 32,
{
    sha2::Sha256::digest(data).to_vec()
}

/// Map of "hook:command_index" to the hash of the matched files of the last
/// successful run.
#[derive(Debug, Clone, PartialEq, Eq)]
pub struct CacheStore {
    entries: StrMap<String>,
}

impl View for CacheStore {
    type V = Map<Seq<char>, Seq<char>>;

    closed spec fn view(&self) -> Map<Seq<char>, Seq<char>> {
        self.entries@.map_values(|v: String| v@)
    }
}

impl CacheStore {
    /// An empty cache.
    pub fn new() -> (res: Self)
        ensures
            res@ == Map::<Seq<char>, Seq<char>>::empty(),
    {
        let c = CacheStore { entries: StrMap::new() };
        proof {
            assert(c@ =~= Map::<Seq<char>, Seq<char>>::empty());
        }
        c
    }

    /// The hash stored under `key`, if any.
    pub fn get(&self, key: &str) -> (res: Option<&String>)
        ensures
            res is Some <==> self@.contains_key(key@),
            res matches Some(v) ==> v@ == self@[key@],
    {
        self.entries.get(key)
    }

    /// Stores `value` under `key`, replacing what was there.
    pub fn insert(&mut self, key: String, value: String)
        ensures
            final(self)@ == old(self)@.insert(key@, value@),
    {
        let ghost k = key@;
        let ghost v = value@;
        self.entries.insert(key, value);
        proof {
            assert(self@ =~= old(self)@.insert(k, v));
        }
    }

    /// The stored entries, each key once.
    pub fn entries(&self) -> (res: &Vec<(String, String)>)
        ensures
            crate::strmap::keys_distinct(res@),
            forall|i: int| 0 <= i < res@.len() ==> self@.contains_key(#[trigger] res@[i].0@) && self@[res@[i].0@]
                == res@[i].1@,
            forall|k: Seq<char>| #[trigger] self@.contains_key(k) ==> exists|i: int| 0 <= i < res@.len() && res@[i].0@ == k,
    {
        let r = self.entries.entries();
        proof {
            crate::strmap::lemma_entries_map_index(r@, Seq::<char>::empty());
            assert forall|i: int| 0 <= i < r@.len() implies self@.contains_key(#[trigger] r@[i].0@) && self@[r@[i].0@]
                == r@[i].1@ by {
                crate::strmap::lemma_entries_map_index(r@, r@[i].0@);
            }
            assert forall|k: Seq<char>| #[trigger] self@.contains_key(k) implies exists|i: int| 0 <= i < r@.len() && r@[i].0@ == k by {
                crate::strmap::lemma_entries_map_index(r@, k);
            }
        }
        r
    }

    /// Whether the cache holds exactly `hash` under `key`.
    pub fn is_hit(&self, key: &str, hash: &str) -> (res: bool)
        ensures
            res == (self@.contains_key(key@) && self@[key@] == hash@),
    {
        match self.get(key) {
            Some(v) => crate::text::str_eq(v.as_str(), hash),
            None => false,
        }
    }
}

/// A stored value is read back: after `insert(k, v)`, `is_hit(k, v)` holds,
/// and the entries under other keys are unchanged.
pub proof fn law_cache_read_after_write(m: Map<Seq<char>, Seq<char>>, k: Seq<char>, v: Seq<char>, other: Seq<char>)
    requires
        other != k,
    ensures
        m.insert(k, v).contains_key(k) && m.insert(k, v)[k] == v,
        m.insert(k, v).contains_key(other) == m.contains_key(other),
        m.contains_key(other) ==> m.insert(k, v)[other] == m[other],
{
}

/// The entry that a command run in parallel left in its own copy of the cache,
/// to be copied into the shared cache: the copy's value under `key` when it is
/// present and differs from the snapshot's.
pub open spec fn spec_parallel_update(
    snapshot: Map<Seq<char>, Seq<char>>,
    local: Map<Seq<char>, Seq<char>>,
    key: Seq<char>,
) -> Option<(Seq<char>, Seq<char>)> {
    if local.contains_key(key) && !(snapshot.contains_key(key) && snapshot[key] == local[key]) {
        Some((key, local[key]))
    } else {
        None
    }
}

/// What a parallel command's own cache copy changed under its key, if anything.
pub fn parallel_update(snapshot: &CacheStore, local: &CacheStore, key: &str) -> (res: Option<(String, String)>)
    ensures
        match res {
            Some(u) => spec_parallel_update(snapshot@, local@, key@) == Some((u.0@, u.1@)),
            None => spec_parallel_update(snapshot@, local@, key@) is None,
        },
{
    match local.get(key) {
        Some(v) => {
            if snapshot.is_hit(key, v.as_str()) {
                None
            } else {
                Some((key.to_owned(), v.clone()))
            }
        },
        None => None,
    }
}

/// The bytes of an optional file content; an unreadable file adds nothing.
pub open spec fn content_bytes(c: Option<Vec<u8>>) -> Seq<u8> {
    match c {
        Some(v) => v@,
        None => Seq::empty(),
    }
}

/// The message hashed for the cache: for each matched file its UTF-8 path, a
/// zero byte, its content (nothing when unreadable), and a zero byte.
pub open spec fn cache_message(files: Seq<ChangedFile>, contents: Seq<Option<Vec<u8>>>) -> Seq<u8>
    decreases files.len(),
{
    if files.len() == 0 || contents.len() == 0 {
        Seq::empty()
    } else {
        cache_message(files.drop_last(), contents.drop_last()) + vstd::utf8::encode_utf8(files.last().path@) + seq![
            0u8,
        ] + content_bytes(contents.last()) + seq![0u8]
    }
}

/// The cache hash of the files with these contents: the SHA-256 digest of their
/// cache message, in lowercase hexadecimal.
pub open spec fn spec_cache_hash(files: Seq<ChangedFile>, contents: Seq<Option<Vec<u8>>>) -> Seq<char> {
    hex_lower(sha256_digest(cache_message(files, contents)))
}

/// The part of the cache message for one file.
spec fn cache_block(f: ChangedFile, c: Option<Vec<u8>>) -> Seq<u8> {
    vstd::utf8::encode_utf8(f.path@) + seq![0u8] + content_bytes(c) + seq![0u8]
}

proof fn lemma_cache_message_split(files: Seq<ChangedFile>, contents: Seq<Option<Vec<u8>>>, n: int)
    requires
        files.len() == contents.len(),
        0 <= n <= files.len(),
    ensures
        cache_message(files, contents) == cache_message(files.take(n), contents.take(n)) + cache_message(
            files.skip(n),
            contents.skip(n),
        ),
    decreases files.len(),
{
    if n == files.len() {
        assert(files.take(n) =~= files);
        assert(contents.take(n) =~= contents);
        assert(files.skip(n).len() == 0);
        assert(cache_message(files.skip(n), contents.skip(n)) =~= Seq::<u8>::empty());
        assert(cache_message(files, contents) + Seq::<u8>::empty() =~= cache_message(files, contents));
    } else {
        let f = files.drop_last();
        let c = contents.drop_last();
        lemma_cache_message_split(f, c, n);
        assert(files.take(n) =~= f.take(n));
        assert(contents.take(n) =~= c.take(n));
        assert(files.skip(n).drop_last() =~= f.skip(n));
        assert(contents.skip(n).drop_last() =~= c.skip(n));
        assert(files.skip(n).last() == files.last());
        assert(contents.skip(n).last() == contents.last());
        let a = cache_message(f.take(n), c.take(n));
        let b = cache_message(f.skip(n), c.skip(n));
        assert(cache_message(files, contents) =~= a + b + vstd::utf8::encode_utf8(files.last().path@) + seq![0u8]
            + content_bytes(contents.last()) + seq![0u8]);
        assert(cache_message(files.skip(n), contents.skip(n)) =~= b + vstd::utf8::encode_utf8(files.last().path@)
            + seq![0u8] + content_bytes(contents.last()) + seq![0u8]);
    }
}

proof fn lemma_cache_message_congruent(files: Seq<ChangedFile>, c1: Seq<Option<Vec<u8>>>, c2: Seq<Option<Vec<u8>>>)
    requires
        files.len() == c1.len(),
        files.len() == c2.len(),
        forall|j: int| 0 <= j < files.len() ==> content_bytes(#[trigger] c1[j]) == content_bytes(c2[j]),
    ensures
        cache_message(files, c1) == cache_message(files, c2),
    decreases files.len(),
{
    if files.len() > 0 {
        let f = files.drop_last();
        assert forall|j: int| 0 <= j < f.len() implies content_bytes(#[trigger] c1.drop_last()[j]) == content_bytes(
            c2.drop_last()[j],
        ) by {
            assert(c1.drop_last()[j] == c1[j]);
            assert(c2.drop_last()[j] == c2[j]);
        }
        lemma_cache_message_congruent(f, c1.drop_last(), c2.drop_last());
        assert(content_bytes(c1[files.len() - 1]) == content_bytes(c2[files.len() - 1]));
    }
}

proof fn lemma_cache_message_one(files: Seq<ChangedFile>, contents: Seq<Option<Vec<u8>>>)
    requires
        files.len() == 1,
        contents.len() == 1,
    ensures
        cache_message(files, contents) == cache_block(files[0], contents[0]),
{
    assert(cache_message(files.drop_last(), contents.drop_last()) =~= Seq::<u8>::empty());
    assert(cache_message(files, contents) =~= cache_block(files[0], contents[0]));
}

/// The message hashed for the cache holds every matched file's content: for
/// the same files, two lists of contents that differ in one file's content
/// and agree on the others give different messages.
pub proof fn law_cache_message_sees_every_content(
    files: Seq<ChangedFile>,
    c1: Seq<Option<Vec<u8>>>,
    c2: Seq<Option<Vec<u8>>>,
    i: int,
)
    requires
        files.len() == c1.len(),
        files.len() == c2.len(),
        0 <= i < files.len(),
        forall|j: int| 0 <= j < files.len() && j != i ==> content_bytes(#[trigger] c1[j]) == content_bytes(c2[j]),
        content_bytes(c1[i]) != content_bytes(c2[i]),
    ensures
        cache_message(files, c1) != cache_message(files, c2),
{
    lemma_cache_message_split(files, c1, i);
    lemma_cache_message_split(files, c2, i);
    let s = files.skip(i);
    let s1 = c1.skip(i);
    let s2 = c2.skip(i);
    lemma_cache_message_split(s, s1, 1);
    lemma_cache_message_split(s, s2, 1);
    assert forall|j: int| 0 <= j < i implies content_bytes(#[trigger] c1.take(i)[j]) == content_bytes(c2.take(i)[j]) by {
        assert(c1.take(i)[j] == c1[j]);
        assert(c2.take(i)[j] == c2[j]);
    }
    lemma_cache_message_congruent(files.take(i), c1.take(i), c2.take(i));
    assert forall|j: int| 0 <= j < s.skip(1).len() implies content_bytes(#[trigger] s1.skip(1)[j]) == content_bytes(
        s2.skip(1)[j],
    ) by {
        assert(s1.skip(1)[j] == c1[i + 1 + j]);
        assert(s2.skip(1)[j] == c2[i + 1 + j]);
    }
    lemma_cache_message_congruent(s.skip(1), s1.skip(1), s2.skip(1));
    lemma_cache_message_one(s.take(1), s1.take(1));
    lemma_cache_message_one(s.take(1), s2.take(1));
    assert(s.take(1)[0] == files[i]);
    assert(s1.take(1)[0] == c1[i]);
    assert(s2.take(1)[0] == c2[i]);
    let a = cache_message(files.take(i), c1.take(i));
    let rest = cache_message(s.skip(1), s1.skip(1));
    let e = vstd::utf8::encode_utf8(files[i].path@) + seq![0u8];
    let x1 = content_bytes(c1[i]);
    let x2 = content_bytes(c2[i]);
    let m1 = cache_message(files, c1);
    let m2 = cache_message(files, c2);
    assert(m1 == a + (e + x1 + seq![0u8]) + rest) by {
        assert(cache_block(files[i], c1[i]) =~= e + x1 + seq![0u8]);
    }
    assert(m2 == a + (e + x2 + seq![0u8]) + rest) by {
        assert(cache_block(files[i], c2[i]) =~= e + x2 + seq![0u8]);
    }
    if m1 == m2 {
        assert(x1.len() == x2.len());
        let lo: int = a.len() as int + e.len() as int;
        assert(m1.subrange(lo, lo + x1.len() as int) =~= x1);
        assert(m2.subrange(lo, lo + x2.len() as int) =~= x2);
        assert(false);
    }
}

/// The lowercase hexadecimal digit for a value below 16.
pub open spec fn hex_digit(n: nat) -> char {
    if n < 10 {
        crate::text::digit_char(n)
    } else if n == 10 {
        'a'
    } else if n == 11 {
        'b'
    } else if n == 12 {
        'c'
    } else if n == 13 {
        'd'
    } else if n == 14 {
        'e'
    } else {
        'f'
    }
}

/// Lowercase hexadecimal, two digits per byte, high nibble first.
pub open spec fn hex_lower(bytes: Seq<u8>) -> Seq<char>
    decreases bytes.len(),
{
    if bytes.len() == 0 {
        Seq::empty()
    } else {
        hex_lower(bytes.drop_last()) + seq![
            hex_digit((bytes.last() / 16) as nat),
            hex_digit((bytes.last() % 16) as nat),
        ]
    }
}

proof fn lemma_hex_lower_len(bytes: Seq<u8>)
    ensures
        hex_lower(bytes).len() == 2 * bytes.len(),
    decreases bytes.len(),
{
    if bytes.len() > 0 {
        lemma_hex_lower_len(bytes.drop_last());
    }
}

fn hex_str(n: u8) -> (res: &'static str)
    requires
        n < 16,
    ensures
        res@ == seq![hex_digit(n as nat)],
{
    proof {
        reveal_strlit("0");
        reveal_strlit("1");
        reveal_strlit("2");
        reveal_strlit("3");
        reveal_strlit("4");
        reveal_strlit("5");
        reveal_strlit("6");
        reveal_strlit("7");
        reveal_strlit("8");
        reveal_strlit("9");
        reveal_strlit("a");
        reveal_strlit("b");
        reveal_strlit("c");
        reveal_strlit("d");
        reveal_strlit("e");
        reveal_strlit("f");
    }
    if n == 0 { "0" }
    else if n == 1 { "1" }
    else if n == 2 { "2" }
    else if n == 3 { "3" }
    else if n == 4 { "4" }
    else if n == 5 { "5" }
    else if n == 6 { "6" }
    else if n == 7 { "7" }
    else if n == 8 { "8" }
    else if n == 9 { "9" }
    else if n == 10 { "a" }
    else if n == 11 { "b" }
    else if n == 12 { "c" }
    else if n == 13 { "d" }
    else if n == 14 { "e" }
    else { "f" }
}

/// Renders bytes as lowercase hexadecimal, as `format!("{:x}", digest)` does.
pub fn to_hex_lower(bytes: &[u8]) -> (res: String)
    ensures
        res@ == hex_lower(bytes@),
{
    let mut s = String::new();
    let mut i: usize = 0;
    while i < bytes.len()
        invariant
            i <= bytes@.len(),
            s@ == hex_lower(bytes@.take(i as int)),
        decreases bytes@.len() - i,
    {
        let b = bytes[i];
        s.append(hex_str(b / 16));
        s.append(hex_str(b % 16));
        proof {
            assert(bytes@.take(i + 1).drop_last() =~= bytes@.take(i as int));
            assert(s@ =~= hex_lower(bytes@.take(i + 1)));
        }
        i = i + 1;
    }
    proof {
        assert(bytes@.take(bytes@.len() as int) =~= bytes@);
    }
    s
}

fn append_bytes(out: &mut Vec<u8>, bytes: &[u8])
    ensures
        final(out)@ == old(out)@ + bytes@,
{
    let mut i: usize = 0;
    while i < bytes.len()
        invariant
            i <= bytes@.len(),
            out@ == old(out)@ + bytes@.take(i as int),
        decreases bytes@.len() - i,
    {
        out.push(bytes[i]);
        proof {
            assert(old(out)@ + bytes@.take(i + 1) =~= (old(out)@ + bytes@.take(i as int)).push(bytes@[i as int]));
        }
        i = i + 1;
    }
    proof {
        assert(bytes@.take(bytes@.len() as int) =~= bytes@);
    }
}

/// The cache hash of the matched files: SHA-256 over each file's path and
/// content (as read by the caller; `None` when unreadable), in lowercase hex.
pub fn compute_cache_hash(matched_files: &Vec<ChangedFile>, contents: &Vec<Option<Vec<u8>>>) -> (res: String)
    requires
        matched_files@.len() == contents@.len(),
    ensures
        res@ == spec_cache_hash(matched_files@, contents@),
        res@.len() == 64,
{
    let mut message: Vec<u8> = Vec::new();
    let mut i: usize = 0;
    while i < matched_files.len()
        invariant
            i <= matched_files@.len(),
            matched_files@.len() == contents@.len(),
            message@ == cache_message(matched_files@.take(i as int), contents@.take(i as int)),
        decreases matched_files@.len() - i,
    {
        append_bytes(&mut message, matched_files[i].path.as_str().as_bytes());
        message.push(0u8);
        match &contents[i] {
            Some(c) => append_bytes(&mut message, c.as_slice()),
            None => {},
        }
        message.push(0u8);
        proof {
            assert(matched_files@.take(i + 1).drop_last() =~= matched_files@.take(i as int));
            assert(contents@.take(i + 1).drop_last() =~= contents@.take(i as int));
            assert(message@ =~= cache_message(matched_files@.take(i + 1), contents@.take(i + 1)));
        }
        i = i + 1;
    }
    proof {
        assert(matched_files@.take(i as int) =~= matched_files@);
        assert(contents@.take(i as int) =~= contents@);
    }
    let digest = sha256(message.as_slice());
    proof {
        lemma_hex_lower_len(digest@);
    }
    to_hex_lower(digest.as_slice())
}

} // verus!
