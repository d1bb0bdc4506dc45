//! Sequential identifiers and BLAKE3-based content hashes.

use vstd::prelude::*;

use crate::text::push_char;

verus! {

// ── Sequential ID types ──────────────────────────────────────────────

/// Identifier of an order.
#[derive(Debug, Clone, Copy, PartialEq, Eq, Hash, Structural)]
pub struct OrderId(pub u64);

/// Identifier of a signal event.
#[derive(Debug, Clone, Copy, PartialEq, Eq, Hash, Structural)]
pub struct SignalEventId(pub u64);

/// Identifier of a one-cancels-other group.
#[derive(Debug, Clone, Copy, PartialEq, Eq, Hash, Structural)]
pub struct OcoGroupId(pub u64);

/// Monotonically increasing ID generator. All three kinds of identifier
/// are drawn from the same counter.
#[derive(Debug)]
pub struct IdGen {
    next: u64,
}

impl View for IdGen {
    type V = u64;

    /// The value that the next issued identifier will carry.
    closed spec fn view(&self) -> u64 {
        self.next
    }
}

/// `id` is what a generator in state `before` issues, leaving it in state `after`.
pub open spec fn issues(before: u64, id: u64, after: u64) -> bool {
    &&& id == before
    &&& after == before + 1
}

impl Default for IdGen {
    fn default() -> (g: Self)
        ensures
            g@ == 0,
    {
        IdGen { next: 0 }
    }
}

impl IdGen {
    /// The value the next identifier will carry.
    pub fn peek_next(&self) -> (n: u64)
        ensures
            n == self@,
    {
        self.next
    }

    pub fn next_order_id(&mut self) -> (id: OrderId)
        requires
            old(self)@ < u64::MAX,
        ensures
            issues(old(self)@, id.0, final(self)@),
    {
        let id = OrderId(self.next);
        self.next = self.next + 1;
        id
    }

    pub fn next_signal_event_id(&mut self) -> (id: SignalEventId)
        requires
            old(self)@ < u64::MAX,
        ensures
            issues(old(self)@, id.0, final(self)@),
    {
        let id = SignalEventId(self.next);
        self.next = self.next + 1;
        id
    }

    pub fn next_oco_group_id(&mut self) -> (id: OcoGroupId)
        requires
            old(self)@ < u64::MAX,
        ensures
            issues(old(self)@, id.0, final(self)@),
    {
        let id = OcoGroupId(self.next);
        self.next = self.next + 1;
        id
    }
}

/// Identifiers drawn one after another from the same generator strictly
/// increase, so no two of them are equal, whatever kind each one is.
pub proof fn successive_ids_strictly_increase(g0: u64, a: u64, g1: u64, b: u64, g2: u64)
    requires
        issues(g0, a, g1),
        issues(g1, b, g2),
    ensures
        a < b,
        a != b,
        g0 < g2,
{
}

proof fn lemma_counter_states(start: u64, values: Seq<u64>, states: Seq<u64>, k: int)
    requires
        states.len() == values.len() + 1,
        states[0] == start,
        forall|j: int| 0 <= j < values.len() ==> issues(#[trigger] states[j], values[j], states[j + 1]),
        0 <= k <= values.len(),
    ensures
        states[k] == start + k,
    decreases k,
{
    if k > 0 {
        lemma_counter_states(start, values, states, k - 1);
        assert(issues(states[k - 1], values[k - 1], states[k]));
    }
}

/// One generator serves all three kinds of identifier from one counter: any
/// run of calls on it, of whatever kinds in whatever order, hands out
/// consecutive values starting at the counter's value before the first call,
/// so no two identifiers it issues share a value.
pub proof fn ids_share_one_counter(start: u64, values: Seq<u64>, states: Seq<u64>)
    requires
        states.len() == values.len() + 1,
        states[0] == start,
        forall|j: int| 0 <= j < values.len() ==> issues(#[trigger] states[j], values[j], states[j + 1]),
    ensures
        forall|k: int| 0 <= k < values.len() ==> #[trigger] values[k] == start + k,
        forall|j: int, k: int| 0 <= j < k < values.len() ==> values[j] != values[k],
{
    assert forall|k: int| 0 <= k < values.len() implies #[trigger] values[k] == start + k by {
        lemma_counter_states(start, values, states, k);
        assert(issues(states[k], values[k], states[k + 1]));
    }
    assert forall|j: int, k: int| 0 <= j < k < values.len() implies values[j] != values[k] by {
        assert(values[j] == start + j);
        assert(values[k] == start + k);
    }
}

// ── BLAKE3-based hash types ──────────────────────────────────────────

/// The 32-byte BLAKE3 digest of `data`.
pub uninterp spec fn blake3_digest(data: Seq<u8>) -> Seq<u8>;

/// Calls `blake3::hash` and copies out its 32 bytes; the contract claims only
/// that the result is the BLAKE3 digest of the input (named, not stated).
#[verifier::external_body]
fn blake3_hash_bytes(data: &[u8]) -> (out: [u8; 32])
    ensures
        out@ == blake3_digest(data@),
{
    *blake3::hash(data).as_bytes()
}

/// Lower-case hexadecimal digit for a nibble value below 16.
pub open spec fn hex_digit(n: int) -> char {
    if n < 10 {
        (48 + n) as char
    } else {
        (87 + n) as char
    }
}

/// Two lower-case hex digits per byte, most significant nibble first.
pub open spec fn hex_text(bytes: Seq<u8>) -> Seq<char>
    decreases bytes.len(),
{
    if bytes.len() == 0 {
        Seq::empty()
    } else {
        let b = bytes.last();
        hex_text(bytes.drop_last()) + seq![hex_digit((b / 16) as int), hex_digit((b % 16) as int)]
    }
}

/// Value of one hexadecimal digit (either case), if `c` is one.
pub open spec fn hex_value(c: char) -> Option<u8> {
    let n = c as u32;
    if 48 <= n <= 57 {
        Some((n - 48) as u8)
    } else if 97 <= n <= 102 {
        Some((n - 87) as u8)
    } else if 65 <= n <= 70 {
        Some((n - 55) as u8)
    } else {
        None
    }
}

/// Value of a two-character radix-16 number as `u8::from_str_radix` reads
/// it: two hex digits, or a `+` sign followed by one digit.
pub open spec fn hex_pair_value(c0: char, c1: char) -> Option<u8> {
    if c0 == '+' {
        hex_value(c1)
    } else {
        match (hex_value(c0), hex_value(c1)) {
            (Some(hi), Some(lo)) => Some((hi * 16 + lo) as u8),
            _ => None,
        }
    }
}

/// Bytes read from consecutive character pairs, or `None` if any pair is not
/// a valid number. Meaningful for texts of even length.
pub open spec fn hex_pairs(text: Seq<char>) -> Option<Seq<u8>>
    decreases text.len(),
{
    if text.len() < 2 {
        Some(Seq::empty())
    } else {
        let n = text.len();
        match (hex_pairs(text.subrange(0, n - 2)), hex_pair_value(text[n - 2], text[n - 1])) {
            (Some(prefix), Some(b)) => Some(prefix.push(b)),
            _ => None,
        }
    }
}

proof fn lemma_hex_text_len(bytes: Seq<u8>)
    ensures
        hex_text(bytes).len() == 2 * bytes.len(),
    decreases bytes.len(),
{
    if bytes.len() > 0 {
        lemma_hex_text_len(bytes.drop_last());
    }
}

proof fn lemma_hex_digit_value(n: int)
    requires
        0 <= n < 16,
    ensures
        hex_value(hex_digit(n)) == Some(n as u8),
        hex_digit(n) != '+',
{
}

/// Reading back the hex text of any byte string gives the bytes again.
pub proof fn hex_roundtrip(bytes: Seq<u8>)
    ensures
        hex_pairs(hex_text(bytes)) == Some(bytes),
    decreases bytes.len(),
{
    if bytes.len() > 0 {
        let prefix = bytes.drop_last();
        let b = bytes.last();
        hex_roundtrip(prefix);
        lemma_hex_text_len(prefix);
        lemma_hex_text_len(bytes);
        let t = hex_text(bytes);
        let n = t.len();
        assert(t.subrange(0, n - 2) =~= hex_text(prefix));
        lemma_hex_digit_value((b / 16) as int);
        lemma_hex_digit_value((b % 16) as int);
        assert(hex_pair_value(t[n - 2], t[n - 1]) == Some(b));
        assert(prefix.push(b) =~= bytes);
    }
}

fn nibble_char(n: u8) -> (c: char)
    requires
        n < 16,
    ensures
        c == hex_digit(n as int),
{
    if n < 10 {
        (48u8 + n) as char
    } else {
        (87u8 + n) as char
    }
}

fn hex_value_exec(c: char) -> (r: Option<u8>)
    ensures
        r == hex_value(c),
{
    let n = c as u32;
    if 48 <= n && n <= 57 {
        Some((n - 48) as u8)
    } else if 97 <= n && n <= 102 {
        Some((n - 87) as u8)
    } else if 65 <= n && n <= 70 {
        Some((n - 55) as u8)
    } else {
        None
    }
}

fn hex_pair_value_exec(c0: char, c1: char) -> (r: Option<u8>)
    ensures
        r == hex_pair_value(c0, c1),
{
    if c0 == '+' {
        hex_value_exec(c1)
    } else {
        match (hex_value_exec(c0), hex_value_exec(c1)) {
            (Some(hi), Some(lo)) => Some(hi * 16 + lo),
            _ => None,
        }
    }
}

/// Lower-case hex rendering of a byte string.
pub fn to_hex(bytes: &[u8]) -> (s: String)
    ensures
        s@ == hex_text(bytes@),
{
    let mut s = String::new();
    let mut i: usize = 0;
    while i < bytes.len()
        invariant
            i <= bytes@.len(),
            s@ == hex_text(bytes@.subrange(0, i as int)),
        decreases bytes@.len() - i,
    {
        let b = bytes[i];
        push_char(&mut s, nibble_char(b / 16));
        push_char(&mut s, nibble_char(b % 16));
        proof {
            let next = bytes@.subrange(0, i + 1);
            assert(next.drop_last() =~= bytes@.subrange(0, i as int));
            assert(next.last() == b);
        }
        i = i + 1;
    }
    proof {
        assert(bytes@.subrange(0, bytes@.len() as int) =~= bytes@);
    }
    s
}

/// Reads consecutive character pairs of an even-length text as radix-16
/// numbers; `None` as soon as a pair is not one.
pub fn decode_hex_pairs(text: &str) -> (r: Option<Vec<u8>>)
    requires
        text@.len() % 2 == 0,
    ensures
        match r {
            Some(v) => hex_pairs(text@) == Some(v@),
            None => hex_pairs(text@) is None,
        },
{
    let n = text.unicode_len();
    let mut out: Vec<u8> = Vec::new();
    let mut i: usize = 0;
    while i < n / 2
        invariant
            n == text@.len(),
            n % 2 == 0,
            i <= n / 2,
            hex_pairs(text@.subrange(0, 2 * i)) == Some(out@),
        decreases n / 2 - i,
    {
        let c0 = text.get_char(2 * i);
        let c1 = text.get_char(2 * i + 1);
        let pair = hex_pair_value_exec(c0, c1);
        proof {
            let t = text@.subrange(0, 2 * i + 2);
            assert(t.subrange(0, 2 * i) =~= text@.subrange(0, 2 * i));
            assert(t[2 * i] == c0);
            assert(t[2 * i + 1] == c1);
        }
        match pair {
            Some(b) => {
                out.push(b);
            },
            None => {
                proof {
                    lemma_hex_pairs_prefix_none(text@, 2 * i + 2);
                }
                return None;
            },
        }
        i = i + 1;
    }
    proof {
        assert(text@.subrange(0, n as int) =~= text@);
    }
    Some(out)
}

/// A failed even-length prefix makes the whole even-length text fail.
proof fn lemma_hex_pairs_prefix_none(text: Seq<char>, k: int)
    requires
        0 <= k <= text.len(),
        k % 2 == 0,
        text.len() % 2 == 0,
        hex_pairs(text.subrange(0, k)) is None,
    ensures
        hex_pairs(text) is None,
    decreases text.len() - k,
{
    if k < text.len() {
        let t = text.subrange(0, k + 2);
        assert(t.subrange(0, k) =~= text.subrange(0, k));
        lemma_hex_pairs_prefix_none(text, k + 2);
    } else {
        assert(text.subrange(0, k) =~= text);
    }
}

/// The 32 bytes encoded by an even-length hex text, if it encodes exactly 32.
pub open spec fn digest_from_hex(text: Seq<char>) -> Option<Seq<u8>> {
    match hex_pairs(text) {
        Some(b) => if b.len() == 32 { Some(b) } else { None },
        None => None,
    }
}

fn bytes_to_digest(v: &Vec<u8>) -> (out: [u8; 32])
    requires
        v@.len() == 32,
    ensures
        out@ == v@,
{
    let mut out = [0u8; 32];
    let mut i: usize = 0;
    while i < 32
        invariant
            v@.len() == 32,
            0 <= i <= 32,
            out@.len() == 32,
            forall|j: int| 0 <= j < i ==> out@[j] == v@[j],
        decreases 32 - i,
    {
        out[i] = v[i];
        i = i + 1;
    }
    proof {
        assert(out@ =~= v@);
    }
    out
}

/// Reads an even-length hex text back into a 32-byte digest.
fn digest_bytes_from_hex(text: &str) -> (r: Option<[u8; 32]>)
    requires
        text@.len() % 2 == 0,
    ensures
        match r {
            Some(a) => digest_from_hex(text@) == Some(a@),
            None => digest_from_hex(text@) is None,
        },
{
    match decode_hex_pairs(text) {
        Some(v) => {
            if v.len() == 32 {
                Some(bytes_to_digest(&v))
            } else {
                None
            }
        },
        None => None,
    }
}

/// Structural identity of a strategy: component types only.
#[derive(Debug, Clone, PartialEq, Eq, Hash)]
pub struct ConfigHash(pub [u8; 32]);

/// Exact identity of a strategy: component types and all parameter values.
#[derive(Debug, Clone, PartialEq, Eq, Hash)]
pub struct FullHash(pub [u8; 32]);

/// Identity of a dataset.
#[derive(Debug, Clone, PartialEq, Eq, Hash)]
pub struct DatasetHash(pub [u8; 32]);

/// Identity of a single backtest run.
#[derive(Debug, Clone, PartialEq, Eq, Hash)]
pub struct RunId(pub [u8; 32]);

impl ConfigHash {
    pub fn from_bytes(data: &[u8]) -> (h: Self)
        ensures
            h.0@ == blake3_digest(data@),
    {
        ConfigHash(blake3_hash_bytes(data))
    }

    pub fn as_hex(&self) -> (s: String)
        ensures
            s@ == hex_text(self.0@),
            s@.len() == 64,
    {
        proof {
            lemma_hex_text_len(self.0@);
        }
        to_hex(self.0.as_slice())
    }

    /// Reads back the text that `as_hex` writes; `None` when the text does not
    /// encode exactly 32 bytes.
    pub fn from_hex(text: &str) -> (r: Option<Self>)
        requires
            text@.len() % 2 == 0,
        ensures
            match r {
                Some(h) => digest_from_hex(text@) == Some(h.0@),
                None => digest_from_hex(text@) is None,
            },
    {
        match digest_bytes_from_hex(text) {
            Some(a) => Some(ConfigHash(a)),
            None => None,
        }
    }
}

impl FullHash {
    pub fn from_bytes(data: &[u8]) -> (h: Self)
        ensures
            h.0@ == blake3_digest(data@),
    {
        FullHash(blake3_hash_bytes(data))
    }

    pub fn as_hex(&self) -> (s: String)
        ensures
            s@ == hex_text(self.0@),
            s@.len() == 64,
    {
        proof {
            lemma_hex_text_len(self.0@);
        }
        to_hex(self.0.as_slice())
    }

    /// Reads back the text that `as_hex` writes; `None` when the text does not
    /// encode exactly 32 bytes.
    pub fn from_hex(text: &str) -> (r: Option<Self>)
        requires
            text@.len() % 2 == 0,
        ensures
            match r {
                Some(h) => digest_from_hex(text@) == Some(h.0@),
                None => digest_from_hex(text@) is None,
            },
    {
        match digest_bytes_from_hex(text) {
            Some(a) => Some(FullHash(a)),
            None => None,
        }
    }
}

impl DatasetHash {
    pub fn from_bytes(data: &[u8]) -> (h: Self)
        ensures
            h.0@ == blake3_digest(data@),
    {
        DatasetHash(blake3_hash_bytes(data))
    }

    pub fn as_hex(&self) -> (s: String)
        ensures
            s@ == hex_text(self.0@),
            s@.len() == 64,
    {
        proof {
            lemma_hex_text_len(self.0@);
        }
        to_hex(self.0.as_slice())
    }

    /// Reads back the text that `as_hex` writes; `None` when the text does not
    /// encode exactly 32 bytes.
    pub fn from_hex(text: &str) -> (r: Option<Self>)
        requires
            text@.len() % 2 == 0,
        ensures
            match r {
                Some(h) => digest_from_hex(text@) == Some(h.0@),
                None => digest_from_hex(text@) is None,
            },
    {
        match digest_bytes_from_hex(text) {
            Some(a) => Some(DatasetHash(a)),
            None => None,
        }
    }
}

impl RunId {
    pub fn from_bytes(data: &[u8]) -> (h: Self)
        ensures
            h.0@ == blake3_digest(data@),
    {
        RunId(blake3_hash_bytes(data))
    }

    pub fn as_hex(&self) -> (s: String)
        ensures
            s@ == hex_text(self.0@),
            s@.len() == 64,
    {
        proof {
            lemma_hex_text_len(self.0@);
        }
        to_hex(self.0.as_slice())
    }

    /// Reads back the text that `as_hex` writes; `None` when the text does not
    /// encode exactly 32 bytes.
    pub fn from_hex(text: &str) -> (r: Option<Self>)
        requires
            text@.len() % 2 == 0,
        ensures
            match r {
                Some(h) => digest_from_hex(text@) == Some(h.0@),
                None => digest_from_hex(text@) is None,
            },
    {
        match digest_bytes_from_hex(text) {
            Some(a) => Some(RunId(a)),
            None => None,
        }
    }
}

/// A digest written out with `as_hex` is read back unchanged by `from_hex`.
pub proof fn digest_hex_roundtrip(digest: Seq<u8>)
    requires
        digest.len() == 32,
    ensures
        hex_text(digest).len() % 2 == 0,
        digest_from_hex(hex_text(digest)) == Some(digest),
{
    lemma_hex_text_len(digest);
    hex_roundtrip(digest);
}

} // verus!
