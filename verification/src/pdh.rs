//! Reading the instance names of the PDH `GPU Engine` counters.
//!
//! A real instance name looks like
//! `pid_1234_luid_0x00000000_0x0000ABCD_phys_0_eng_0_engtype_3D`: the owning
//! process, the adapter LUID as a high and a low 32-bit half, and the engine
//! type. Adapters are keyed by their LUID written as `0x` and lower-case hex.
use vstd::prelude::*;
use crate::text::{
    push_chars,
    CharClass, ascii_lowercase, chars_of, find, find_chars, hex_text, lemma_find_from,
    lemma_views_push, parse_u32_chars, parse_u32_spec, parse_u64_chars, parse_u64_spec, push_char,
    push_hex, slice_chars, split_chars, split_from, split_on, string_of, strip_prefixes,
    strip_prefixes_chars, to_ascii_lowercase_chars, trim_chars, trim_class, views_of, occurs_at,
    digits_value, digit_value, is_whitespace_code, lemma_find_first, lemma_trim_identity,
    lemma_split_no_sep, lemma_strip_prefixes_none, lemma_strip_prefixes_once, lemma_digits_push,
    lemma_hex_text_value, unsigned_value,
};

verus! {

// ---------------------------------------------------------------------------
// Tags searched for in instance names
// ---------------------------------------------------------------------------

pub open spec fn pid_tag() -> Seq<char> {
    seq!['p', 'i', 'd', '_']
}

pub open spec fn luid_tag() -> Seq<char> {
    seq!['l', 'u', 'i', 'd', '_']
}

pub open spec fn phys_tag() -> Seq<char> {
    seq!['_', 'p', 'h', 'y', 's', '_']
}

pub open spec fn eng_tag() -> Seq<char> {
    seq!['_', 'e', 'n', 'g', '_']
}

pub open spec fn engtype_tag() -> Seq<char> {
    seq!['_', 'e', 'n', 'g', 't', 'y', 'p', 'e', '_']
}

pub open spec fn unknown_engine() -> Seq<char> {
    seq!['u', 'n', 'k', 'n', 'o', 'w', 'n']
}

// ---------------------------------------------------------------------------
// Specifications
// ---------------------------------------------------------------------------

/// The hex digits of `s` once surrounding whitespace and any leading `0x`
/// and then `0X` prefixes are removed.
pub open spec fn hex_body(s: Seq<char>) -> Seq<char> {
    strip_prefixes(
        strip_prefixes(trim_class(s, CharClass::Whitespace), seq!['0', 'x']),
        seq!['0', 'X'],
    )
}

pub open spec fn spec_parse_hex_u32(s: Seq<char>) -> Option<u32> {
    parse_u32_spec(hex_body(s), 16)
}

pub open spec fn spec_parse_hex_u64(s: Seq<char>) -> Option<u64> {
    parse_u64_spec(hex_body(s), 16)
}

/// The decimal process id between `pid_` and the next `_`.
pub open spec fn spec_parse_pid(name: Seq<char>) -> Option<u32> {
    match find(name, pid_tag()) {
        None => None,
        Some(i) => {
            let rest = name.skip(i + 4);
            match find(rest, seq!['_']) {
                None => None,
                Some(e) => parse_u32_spec(rest.take(e), 10),
            }
        },
    }
}

/// The trimmed, non-empty pieces among `pieces`, in order.
pub open spec fn nonempty_trimmed(pieces: Seq<Seq<char>>) -> Seq<Seq<char>>
    decreases pieces.len(),
{
    if pieces.len() == 0 {
        Seq::empty()
    } else {
        let rest = nonempty_trimmed(pieces.drop_last());
        let t = trim_class(pieces.last(), CharClass::Whitespace);
        if t.len() > 0 {
            rest.push(t)
        } else {
            rest
        }
    }
}

/// The adapter key for a 64-bit LUID value: `0x` and lower-case hex.
pub open spec fn luid_text(v: nat) -> Seq<char> {
    seq!['0', 'x'] + hex_text(v)
}

/// The text of an instance name between `luid_` and `_phys_` (or `_eng_`,
/// or the end), without surrounding underscores.
pub open spec fn luid_raw(name: Seq<char>, i: int) -> Seq<char> {
    let rem = name.skip(i + 5);
    let end = match find(rem, phys_tag()) {
        Some(e) => e,
        None => match find(rem, eng_tag()) {
            Some(e) => e,
            None => rem.len() as int,
        },
    };
    trim_class(rem.take(end), CharClass::Underscore)
}

/// The adapter key read from the LUID of an instance name: two
/// underscore-separated 32-bit halves (high, then low), or one 64-bit value.
pub open spec fn luid_from_parts(parts: Seq<Seq<char>>) -> Option<Seq<char>> {
    if parts.len() >= 2 {
        match (spec_parse_hex_u32(parts[0]), spec_parse_hex_u32(parts[1])) {
            (Some(high), Some(low)) => Some(luid_text(high as nat * 0x1_0000_0000 + low as nat)),
            _ => None,
        }
    } else if parts.len() == 1 {
        match spec_parse_hex_u64(parts[0]) {
            Some(v) => Some(luid_text(v as nat)),
            None => None,
        }
    } else {
        None
    }
}

pub open spec fn spec_parse_luid(name: Seq<char>) -> Option<Seq<char>> {
    match find(name, luid_tag()) {
        None => None,
        Some(i) => {
            let raw = luid_raw(name, i);
            if raw.len() == 0 {
                None
            } else {
                luid_from_parts(nonempty_trimmed(split_on(raw, '_')))
            }
        },
    }
}

/// The engine type after `_engtype_` up to the next `_`, in lower case, or
/// `unknown`.
pub open spec fn spec_parse_engine(name: Seq<char>) -> Seq<char> {
    match find(name, engtype_tag()) {
        None => unknown_engine(),
        Some(i) => {
            let low = ascii_lowercase(split_on(name.skip(i + 9), '_')[0]);
            if low.len() == 0 {
                unknown_engine()
            } else {
                low
            }
        },
    }
}

// ---------------------------------------------------------------------------
// Implementations
// ---------------------------------------------------------------------------

fn hex_body_chars(s: &Vec<char>) -> (out: Vec<char>)
    ensures
        out@ == hex_body(s@),
{
    let t = trim_chars(s, &CharClass::Whitespace);
    let lower = vec!['0', 'x'];
    let upper = vec!['0', 'X'];
    assert(lower@ =~= seq!['0', 'x']);
    assert(upper@ =~= seq!['0', 'X']);
    let a = strip_prefixes_chars(&t, &lower);
    strip_prefixes_chars(&a, &upper)
}

fn parse_hex_u32_chars(s: &Vec<char>) -> (r: Option<u32>)
    ensures
        r == spec_parse_hex_u32(s@),
{
    let body = hex_body_chars(s);
    parse_u32_chars(&body, 16)
}

fn parse_hex_u64_chars(s: &Vec<char>) -> (r: Option<u64>)
    ensures
        r == spec_parse_hex_u64(s@),
{
    let body = hex_body_chars(s);
    parse_u64_chars(&body, 16)
}

/// Reads a hexadecimal `u32`, allowing surrounding whitespace and `0x` or
/// `0X` prefixes.
pub fn parse_hex_u32(value: &str) -> (r: Option<u32>)
    ensures
        r == spec_parse_hex_u32(value@),
{
    parse_hex_u32_chars(&chars_of(value))
}

/// Reads a hexadecimal `u64`, allowing surrounding whitespace and `0x` or
/// `0X` prefixes.
pub fn parse_hex_u64(value: &str) -> (r: Option<u64>)
    ensures
        r == spec_parse_hex_u64(value@),
{
    parse_hex_u64_chars(&chars_of(value))
}

/// The process id of an instance name, if it names one.
pub fn parse_pid(instance_name: &str) -> (r: Option<u32>)
    ensures
        r == spec_parse_pid(instance_name@),
{
    let s = chars_of(instance_name);
    let tag = vec!['p', 'i', 'd', '_'];
    assert(tag@ =~= pid_tag());
    proof {
        lemma_find_from(s@, tag@, 0);
    }
    let i = match find_chars(&s, &tag) {
        Some(i) => i,
        None => return None,
    };
    let n = s.len();
    let rest = slice_chars(&s, i + 4, n);
    assert(rest@ =~= s@.skip(i + 4));
    let sep = vec!['_'];
    assert(sep@ =~= seq!['_']);
    proof {
        lemma_find_from(rest@, sep@, 0);
    }
    let e = match find_chars(&rest, &sep) {
        Some(e) => e,
        None => return None,
    };
    let digits = slice_chars(&rest, 0, e);
    assert(digits@ =~= rest@.take(e as int));
    parse_u32_chars(&digits, 10)
}

/// The adapter key for the LUID value `v`: `0x`, then the value in
/// lower-case hex without leading zeros.
pub fn luid_key(v: u64) -> (s: String)
    ensures
        s@ == luid_text(v as nat),
{
    let mut s = String::new();
    push_char(&mut s, '0');
    push_char(&mut s, 'x');
    push_hex(&mut s, v);
    assert(s@ =~= luid_text(v as nat));
    s
}

/// The adapter key of a DXGI adapter LUID, made the same way as the key read
/// from counter instance names: the high part reinterpreted as unsigned above
/// the low part.
pub fn adapter_luid_key(high_part: i32, low_part: u32) -> (s: String)
    ensures
        s@ == luid_text((high_part as u32) as nat * 0x1_0000_0000 + low_part as nat),
{
    let high = high_part as u32;
    let v: u64 = (high as u64) * 0x1_0000_0000 + (low_part as u64);
    luid_key(v)
}

fn nonempty_trimmed_pieces(pieces: &Vec<Vec<char>>) -> (parts: Vec<Vec<char>>)
    ensures
        views_of(parts@) == nonempty_trimmed(views_of(pieces@)),
{
    let mut parts: Vec<Vec<char>> = Vec::new();
    let mut i: usize = 0;
    while i < pieces.len()
        invariant
            i <= pieces.len(),
            views_of(parts@) == nonempty_trimmed(views_of(pieces@).take(i as int)),
        decreases pieces.len() - i,
    {
        let t = trim_chars(&pieces[i], &CharClass::Whitespace);
        let ghost before = parts@;
        assert(views_of(pieces@).take(i + 1).drop_last() =~= views_of(pieces@).take(i as int));
        if t.len() > 0 {
            proof {
                lemma_views_push(before, t);
            }
            parts.push(t);
        }
        i += 1;
    }
    assert(views_of(pieces@).take(pieces.len() as int) =~= views_of(pieces@));
    parts
}

/// The adapter key of an instance name, if it names an adapter LUID.
pub fn parse_luid(instance_name: &str) -> (r: Option<String>)
    ensures
        match r {
            Some(s) => spec_parse_luid(instance_name@) == Some(s@),
            None => spec_parse_luid(instance_name@) is None,
        },
{
    let s = chars_of(instance_name);
    let tag = vec!['l', 'u', 'i', 'd', '_'];
    assert(tag@ =~= luid_tag());
    proof {
        lemma_find_from(s@, tag@, 0);
    }
    let i = match find_chars(&s, &tag) {
        Some(i) => i,
        None => return None,
    };
    let n = s.len();
    let rem = slice_chars(&s, i + 5, n);
    assert(rem@ =~= s@.skip(i + 5));
    let phys = vec!['_', 'p', 'h', 'y', 's', '_'];
    let eng = vec!['_', 'e', 'n', 'g', '_'];
    assert(phys@ =~= phys_tag());
    assert(eng@ =~= eng_tag());
    proof {
        lemma_find_from(rem@, phys@, 0);
        lemma_find_from(rem@, eng@, 0);
    }
    let end = match find_chars(&rem, &phys) {
        Some(e) => e,
        None => match find_chars(&rem, &eng) {
            Some(e) => e,
            None => rem.len(),
        },
    };
    let head = slice_chars(&rem, 0, end);
    assert(head@ =~= rem@.take(end as int));
    let raw = trim_chars(&head, &CharClass::Underscore);
    if raw.len() == 0 {
        return None;
    }
    let pieces = split_chars(&raw, '_');
    let parts = nonempty_trimmed_pieces(&pieces);
    if parts.len() >= 2 {
        let high = match parse_hex_u32_chars(&parts[0]) {
            Some(h) => h,
            None => return None,
        };
        let low = match parse_hex_u32_chars(&parts[1]) {
            Some(l) => l,
            None => return None,
        };
        let v: u64 = (high as u64) * 0x1_0000_0000 + (low as u64);
        Some(luid_key(v))
    } else if parts.len() == 1 {
        match parse_hex_u64_chars(&parts[0]) {
            Some(v) => Some(luid_key(v)),
            None => None,
        }
    } else {
        None
    }
}

pub proof fn lemma_split_from_nonempty(s: Seq<char>, sep: char, pos: int, piece: int)
    ensures
        split_from(s, sep, pos, piece).len() >= 1,
    decreases s.len() - pos,
{
    if pos >= s.len() {
    } else if s[pos] == sep {
        lemma_split_from_nonempty(s, sep, pos + 1, pos + 1);
    } else {
        lemma_split_from_nonempty(s, sep, pos + 1, piece);
    }
}

/// The engine type of an instance name, in lower case, or `unknown`.
pub fn parse_engine(instance_name: &str) -> (r: String)
    ensures
        r@ == spec_parse_engine(instance_name@),
{
    let s = chars_of(instance_name);
    let tag = vec!['_', 'e', 'n', 'g', 't', 'y', 'p', 'e', '_'];
    assert(tag@ =~= engtype_tag());
    proof {
        lemma_find_from(s@, tag@, 0);
    }
    let unknown = vec!['u', 'n', 'k', 'n', 'o', 'w', 'n'];
    assert(unknown@ =~= unknown_engine());
    let i = match find_chars(&s, &tag) {
        Some(i) => i,
        None => return string_of(&unknown),
    };
    let n = s.len();
    let rest = slice_chars(&s, i + 9, n);
    assert(rest@ =~= s@.skip(i + 9));
    let pieces = split_chars(&rest, '_');
    proof {
        lemma_split_from_nonempty(rest@, '_', 0, 0);
    }
    let low = to_ascii_lowercase_chars(&pieces[0]);
    if low.len() == 0 {
        string_of(&unknown)
    } else {
        string_of(&low)
    }
}

// ---------------------------------------------------------------------------
// One counter instance
// ---------------------------------------------------------------------------

/// What an instance name says: the owning process, if any, the adapter key
/// and the engine type.
#[derive(Debug, Clone)]
pub struct GpuInstance {
    pub pid: Option<u32>,
    pub luid: String,
    pub engine: String,
}

/// What an instance name says, or `None` when it names no adapter LUID (such
/// an instance is counted as unparsed).
pub fn classify_gpu_instance(instance_name: &str) -> (r: Option<GpuInstance>)
    ensures
        match r {
            Some(g) => spec_parse_luid(instance_name@) == Some(g.luid@) && g.engine@
                == spec_parse_engine(instance_name@) && g.pid == spec_parse_pid(instance_name@),
            None => spec_parse_luid(instance_name@) is None,
        },
{
    let luid = match parse_luid(instance_name) {
        Some(l) => l,
        None => return None,
    };
    let engine = parse_engine(instance_name);
    let pid = parse_pid(instance_name);
    Some(GpuInstance { pid, luid, engine })
}

// ---------------------------------------------------------------------------
// Diagnostics of one collection
// ---------------------------------------------------------------------------

/// At most this many unparsed instances are kept as examples.
pub const MAX_UNPARSED_SAMPLES: usize = 3;

/// What the last PDH collection saw, to tell why figures fell back to
/// HWiNFO.
#[derive(Debug, Clone)]
pub struct PdhCollectDiagnostics {
    pub raw_item_count: u32,
    pub parsed_item_count: u32,
    pub parse_fail_count: u32,
    pub process_engine_count: usize,
    pub adapter_engine_count: usize,
    pub sample_unparsed: Vec<String>,
}

impl Default for PdhCollectDiagnostics {
    fn default() -> (d: Self)
        ensures
            d.raw_item_count == 0,
            d.parsed_item_count == 0,
            d.parse_fail_count == 0,
            d.process_engine_count == 0,
            d.adapter_engine_count == 0,
            d.sample_unparsed@.len() == 0,
    {
        PdhCollectDiagnostics {
            raw_item_count: 0,
            parsed_item_count: 0,
            parse_fail_count: 0,
            process_engine_count: 0,
            adapter_engine_count: 0,
            sample_unparsed: Vec::new(),
        }
    }
}

/// How loudly a collection is reported.
#[derive(Debug, Clone, Copy, PartialEq, Eq, Structural)]
pub enum PdhLogLevel {
    /// Instances were seen but none could be read.
    Error,
    /// Some instances could not be read.
    Warn,
    /// Everything was read.
    Debug,
}

impl PdhCollectDiagnostics {
    /// Counts one instance that was read.
    pub fn record_parsed(&mut self)
        requires
            old(self).parsed_item_count < u32::MAX,
        ensures
            final(self).parsed_item_count == old(self).parsed_item_count + 1,
            final(self).parse_fail_count == old(self).parse_fail_count,
            final(self).sample_unparsed@ == old(self).sample_unparsed@,
            final(self).raw_item_count == old(self).raw_item_count,
            final(self).process_engine_count == old(self).process_engine_count,
            final(self).adapter_engine_count == old(self).adapter_engine_count,
    {
        self.parsed_item_count = self.parsed_item_count + 1;
    }

    /// Counts one instance that could not be read, keeping `sample` as an
    /// example while fewer than three are kept.
    pub fn record_failure(&mut self, sample: String)
        requires
            old(self).parse_fail_count < u32::MAX,
        ensures
            final(self).parse_fail_count == old(self).parse_fail_count + 1,
            final(self).parsed_item_count == old(self).parsed_item_count,
            final(self).sample_unparsed@ == kept_after_failure(old(self).sample_unparsed@, sample),
            final(self).raw_item_count == old(self).raw_item_count,
            final(self).process_engine_count == old(self).process_engine_count,
            final(self).adapter_engine_count == old(self).adapter_engine_count,
    {
        self.parse_fail_count = self.parse_fail_count + 1;
        if self.sample_unparsed.len() < MAX_UNPARSED_SAMPLES {
            self.sample_unparsed.push(sample);
        }
    }

    /// How loudly the collection is reported: an error when instances were
    /// seen and none was read, a warning when some failed, otherwise debug.
    pub fn severity(&self) -> (l: PdhLogLevel)
        ensures
            l == (if self.raw_item_count > 0 && self.parsed_item_count == 0 {
                PdhLogLevel::Error
            } else if self.parse_fail_count > 0 {
                PdhLogLevel::Warn
            } else {
                PdhLogLevel::Debug
            }),
    {
        if self.raw_item_count > 0 && self.parsed_item_count == 0 {
            PdhLogLevel::Error
        } else if self.parse_fail_count > 0 {
            PdhLogLevel::Warn
        } else {
            PdhLogLevel::Debug
        }
    }
}

/// The examples kept after one more failure with example `sample`: it is
/// added while fewer than three are kept.
pub open spec fn kept_after_failure(kept: Seq<String>, sample: String) -> Seq<String> {
    if kept.len() < MAX_UNPARSED_SAMPLES {
        kept.push(sample)
    } else {
        kept
    }
}

/// The examples kept after failures with examples `samples`, starting from
/// `kept`: `record_failure` applied failure by failure.
pub open spec fn kept_samples(kept: Seq<String>, samples: Seq<String>) -> Seq<String>
    decreases samples.len(),
{
    if samples.len() == 0 {
        kept
    } else {
        kept_after_failure(kept_samples(kept, samples.drop_last()), samples.last())
    }
}

/// Starting from no examples, the examples kept after any run of failures
/// are the first `min(3, n)` samples of that run.
pub proof fn law_first_three_samples_kept(samples: Seq<String>)
    ensures
        kept_samples(Seq::empty(), samples) == samples.take(
            if samples.len() < MAX_UNPARSED_SAMPLES {
                samples.len() as int
            } else {
                MAX_UNPARSED_SAMPLES as int
            },
        ),
    decreases samples.len(),
{
    if samples.len() > 0 {
        law_first_three_samples_kept(samples.drop_last());
        let n = samples.len() - 1;
        if n < MAX_UNPARSED_SAMPLES {
            assert(samples.drop_last().take(n as int).push(samples.last()) =~= samples.take(
                samples.len() as int,
            ));
        } else {
            assert(samples.drop_last().take(MAX_UNPARSED_SAMPLES as int) =~= samples.take(
                MAX_UNPARSED_SAMPLES as int,
            ));
        }
    }
}

// ---------------------------------------------------------------------------
// Tallying one snapshot
// ---------------------------------------------------------------------------

/// One counter value of a snapshot: its instance name and, when the value
/// is not a usable percentage (not finite, or negative), the value as
/// printed.
#[derive(Debug, Clone)]
pub struct PdhItem {
    pub instance_name: String,
    pub bad_value: Option<String>,
}

/// The item is read: its value is usable and its name gives an adapter.
pub open spec fn item_parses(it: PdhItem) -> bool {
    it.bad_value is None && spec_parse_luid(it.instance_name@) is Some
}

/// The example kept for an item that is not read: the name, followed by
/// `(bad_value=...)` when the value was the trouble.
pub open spec fn failure_sample(it: PdhItem) -> Seq<char> {
    match it.bad_value {
        Some(v) => it.instance_name@ + "(bad_value="@ + v@ + ")"@,
        None => it.instance_name@,
    }
}

/// The indices, in order, of the items among the first `n` that are read.
pub open spec fn parsed_indices(items: Seq<PdhItem>, n: int) -> Seq<int>
    decreases n,
{
    if n <= 0 {
        Seq::empty()
    } else if item_parses(items[n - 1]) {
        parsed_indices(items, n - 1).push(n - 1)
    } else {
        parsed_indices(items, n - 1)
    }
}

/// The examples, in order, of the items among the first `n` that are not
/// read.
pub open spec fn failure_samples(items: Seq<PdhItem>, n: int) -> Seq<Seq<char>>
    decreases n,
{
    if n <= 0 {
        Seq::empty()
    } else if item_parses(items[n - 1]) {
        failure_samples(items, n - 1)
    } else {
        failure_samples(items, n - 1).push(failure_sample(items[n - 1]))
    }
}

/// `g` is what the instance name `name` says.
pub open spec fn instance_read_as(name: Seq<char>, g: GpuInstance) -> bool {
    &&& spec_parse_luid(name) == Some(g.luid@)
    &&& g.engine@ == spec_parse_engine(name)
    &&& g.pid == spec_parse_pid(name)
}

/// The example text for an item whose value is not usable.
fn bad_value_sample(name: &String, value: &String) -> (s: String)
    ensures
        s@ == name@ + "(bad_value="@ + value@ + ")"@,
{
    let mut s = string_of(&chars_of(name.as_str()));
    push_chars(&mut s, &chars_of("(bad_value="));
    push_chars(&mut s, &chars_of(value.as_str()));
    push_chars(&mut s, &chars_of(")"));
    s
}

/// The (process id, engine) keys of the items among the first `n` that are
/// read and name a process, in order, repeats included.
pub open spec fn process_keys(items: Seq<PdhItem>, n: int) -> Seq<(u32, Seq<char>)>
    decreases n,
{
    if n <= 0 {
        Seq::empty()
    } else {
        let rest = process_keys(items, n - 1);
        let name = items[n - 1].instance_name@;
        if item_parses(items[n - 1]) && spec_parse_pid(name) is Some {
            rest.push((spec_parse_pid(name).unwrap(), spec_parse_engine(name)))
        } else {
            rest
        }
    }
}

/// The (adapter key, engine) keys of the items among the first `n` that are
/// read, in order, repeats included.
pub open spec fn adapter_keys(items: Seq<PdhItem>, n: int) -> Seq<(Seq<char>, Seq<char>)>
    decreases n,
{
    if n <= 0 {
        Seq::empty()
    } else {
        let rest = adapter_keys(items, n - 1);
        let name = items[n - 1].instance_name@;
        if item_parses(items[n - 1]) {
            rest.push((spec_parse_luid(name).unwrap(), spec_parse_engine(name)))
        } else {
            rest
        }
    }
}

pub open spec fn process_key_views(v: Seq<(u32, String)>) -> Seq<(u32, Seq<char>)> {
    v.map_values(|k: (u32, String)| (k.0, k.1@))
}

pub open spec fn adapter_key_views(v: Seq<(String, String)>) -> Seq<(Seq<char>, Seq<char>)> {
    v.map_values(|k: (String, String)| (k.0@, k.1@))
}

/// Keeping `seen` as the distinct keys of `keys` when `k` comes next.
proof fn lemma_seen_next<K>(seen: Seq<K>, keys: Seq<K>, k: K)
    requires
        seen.no_duplicates(),
        seen.to_set() == keys.to_set(),
    ensures
        seen.contains(k) ==> seen.to_set() == keys.push(k).to_set(),
        !seen.contains(k) ==> seen.push(k).no_duplicates() && seen.push(k).to_set()
            == keys.push(k).to_set(),
{
    broadcast use vstd::seq_lib::group_seq_properties;
    broadcast use vstd::set::group_set_axioms;

    keys.lemma_push_to_set_commute(k);
    seen.lemma_push_to_set_commute(k);
    if seen.contains(k) {
        assert(seen.to_set().contains(k));
        assert(keys.push(k).to_set() =~= seen.to_set());
    } else {
        assert forall|a: int, b: int| 0 <= a < b < seen.push(k).len() implies seen.push(k)[a]
            != seen.push(k)[b] by {
            if b == seen.len() {
                assert(seen.contains(seen[a]));
            }
        }
    }
}

fn process_key_seen(seen: &Vec<(u32, String)>, pid: u32, engine: &String) -> (b: bool)
    ensures
        b == process_key_views(seen@).contains((pid, engine@)),
{
    let mut k: usize = 0;
    while k < seen.len()
        invariant
            k <= seen@.len(),
            forall|m: int| 0 <= m < k ==> process_key_views(seen@)[m] != (pid, engine@),
        decreases seen@.len() - k,
    {
        if seen[k].0 == pid && seen[k].1 == *engine {
            assert(process_key_views(seen@)[k as int] == (pid, engine@));
            return true;
        }
        k += 1;
    }
    false
}

fn adapter_key_seen(seen: &Vec<(String, String)>, luid: &String, engine: &String) -> (b: bool)
    ensures
        b == adapter_key_views(seen@).contains((luid@, engine@)),
{
    let mut k: usize = 0;
    while k < seen.len()
        invariant
            k <= seen@.len(),
            forall|m: int| 0 <= m < k ==> adapter_key_views(seen@)[m] != (luid@, engine@),
        decreases seen@.len() - k,
    {
        if seen[k].0 == *luid && seen[k].1 == *engine {
            assert(adapter_key_views(seen@)[k as int] == (luid@, engine@));
            return true;
        }
        k += 1;
    }
    false
}

/// Reads a snapshot item by item: the diagnostics (every item counted as
/// read or not, the first three examples of those not read kept) and the
/// items that are read, each with its index and what its name says. The
/// engine counts are the numbers of distinct (process, engine) and
/// (adapter, engine) keys among the items read.
pub fn tally_pdh_items(items: &Vec<PdhItem>) -> (r: (PdhCollectDiagnostics, Vec<
    (usize, GpuInstance),
>))
    requires
        items@.len() <= u32::MAX,
    ensures
        r.0.raw_item_count == items@.len(),
        r.0.parsed_item_count == parsed_indices(items@, items@.len() as int).len(),
        r.0.parse_fail_count == failure_samples(items@, items@.len() as int).len(),
        r.0.parsed_item_count + r.0.parse_fail_count == items@.len(),
        r.0.process_engine_count == process_keys(items@, items@.len() as int).to_set().len(),
        r.0.adapter_engine_count == adapter_keys(items@, items@.len() as int).to_set().len(),
        r.0.sample_unparsed@.len() == (if failure_samples(items@, items@.len() as int).len()
            < MAX_UNPARSED_SAMPLES {
            failure_samples(items@, items@.len() as int).len()
        } else {
            MAX_UNPARSED_SAMPLES as nat
        }),
        forall|k: int|
            0 <= k < r.0.sample_unparsed@.len() ==> (#[trigger] r.0.sample_unparsed@[k])@
                == failure_samples(items@, items@.len() as int)[k],
        r.1@.len() == parsed_indices(items@, items@.len() as int).len(),
        forall|k: int|
            0 <= k < r.1@.len() ==> (#[trigger] r.1@[k]).0 == parsed_indices(
                items@,
                items@.len() as int,
            )[k] && instance_read_as(items@[r.1@[k].0 as int].instance_name@, r.1@[k].1),
{
    let mut d = PdhCollectDiagnostics::default();
    let mut parsed: Vec<(usize, GpuInstance)> = Vec::new();
    let mut process_seen: Vec<(u32, String)> = Vec::new();
    let mut adapter_seen: Vec<(String, String)> = Vec::new();
    let mut i: usize = 0;
    while i < items.len()
        invariant
            i <= items@.len() <= u32::MAX,
            d.raw_item_count == 0,
            d.process_engine_count == 0,
            d.adapter_engine_count == 0,
            process_key_views(process_seen@).no_duplicates(),
            process_key_views(process_seen@).to_set() == process_keys(items@, i as int).to_set(),
            adapter_key_views(adapter_seen@).no_duplicates(),
            adapter_key_views(adapter_seen@).to_set() == adapter_keys(items@, i as int).to_set(),
            parsed_indices(items@, i as int).len() + failure_samples(items@, i as int).len() == i,
            d.parsed_item_count == parsed_indices(items@, i as int).len(),
            d.parse_fail_count == failure_samples(items@, i as int).len(),
            parsed@.len() == parsed_indices(items@, i as int).len(),
            forall|k: int|
                0 <= k < parsed@.len() ==> (#[trigger] parsed@[k]).0 == parsed_indices(
                    items@,
                    i as int,
                )[k] && instance_read_as(items@[parsed@[k].0 as int].instance_name@, parsed@[k].1),
            d.sample_unparsed@.len() == (if failure_samples(items@, i as int).len()
                < MAX_UNPARSED_SAMPLES {
                failure_samples(items@, i as int).len()
            } else {
                MAX_UNPARSED_SAMPLES as nat
            }),
            forall|k: int|
                0 <= k < d.sample_unparsed@.len() ==> (#[trigger] d.sample_unparsed@[k])@
                    == failure_samples(items@, i as int)[k],
        decreases items@.len() - i,
    {
        let ghost before_parsed = parsed@;
        let ghost before_samples = d.sample_unparsed@;
        let item = &items[i];
        match &item.bad_value {
            Some(v) => {
                let sample = bad_value_sample(&item.instance_name, v);
                d.record_failure(sample);
            },
            None => match classify_gpu_instance(item.instance_name.as_str()) {
                Some(g) => {
                    let ghost pv = process_key_views(process_seen@);
                    let ghost av = adapter_key_views(adapter_seen@);
                    if let Some(pid) = g.pid {
                        proof {
                            lemma_seen_next(pv, process_keys(items@, i as int), (pid, g.engine@));
                        }
                        if !process_key_seen(&process_seen, pid, &g.engine) {
                            process_seen.push((pid, g.engine.clone()));
                            assert(process_key_views(process_seen@) =~= pv.push((pid, g.engine@)));
                        }
                    }
                    proof {
                        lemma_seen_next(av, adapter_keys(items@, i as int), (g.luid@, g.engine@));
                    }
                    if !adapter_key_seen(&adapter_seen, &g.luid, &g.engine) {
                        adapter_seen.push((g.luid.clone(), g.engine.clone()));
                        assert(adapter_key_views(adapter_seen@) =~= av.push((g.luid@, g.engine@)));
                    }
                    parsed.push((i, g));
                    d.record_parsed();
                },
                None => {
                    let sample = item.instance_name.clone();
                    d.record_failure(sample);
                },
            },
        }
        i += 1;
        assert forall|k: int| 0 <= k < parsed@.len() implies (#[trigger] parsed@[k]).0
            == parsed_indices(items@, i as int)[k] && instance_read_as(
            items@[parsed@[k].0 as int].instance_name@,
            parsed@[k].1,
        ) by {
            if k < before_parsed.len() {
                assert(parsed@[k] == before_parsed[k]);
            }
        }
        assert forall|k: int| 0 <= k < d.sample_unparsed@.len() implies (
        #[trigger] d.sample_unparsed@[k])@ == failure_samples(items@, i as int)[k] by {
            if k < before_samples.len() {
                assert(d.sample_unparsed@[k] == before_samples[k]);
            }
        }
    }
    proof {
        process_key_views(process_seen@).unique_seq_to_set();
        adapter_key_views(adapter_seen@).unique_seq_to_set();
    }
    d.raw_item_count = items.len() as u32;
    d.process_engine_count = process_seen.len();
    d.adapter_engine_count = adapter_seen.len();
    (d, parsed)
}

// ---------------------------------------------------------------------------
// Laws
// ---------------------------------------------------------------------------

/// An adapter key reads back, as a hexadecimal `u64`, as the LUID value it
/// was made from.
pub proof fn law_luid_key_reads_back(v: u64)
    ensures
        spec_parse_hex_u64(luid_text(v as nat)) == Some(v),
{
    let h = hex_text(v as nat);
    let t = luid_text(v as nat);
    lemma_hex_text_value(v as nat);
    assert(t[0] == '0');
    assert(t[t.len() - 1] == h[h.len() - 1]);
    lemma_trim_identity(t, CharClass::Whitespace);
    assert(t.subrange(0, 2) =~= seq!['0', 'x']);
    assert(t.skip(2) =~= h);
    if h.len() >= 2 {
        assert(h.subrange(0, 2)[1] == h[1]);
    }
    lemma_strip_prefixes_once(t, seq!['0', 'x']);
    if h.len() >= 2 {
        assert(h.subrange(0, 2)[1] == h[1]);
    }
    lemma_strip_prefixes_none(h, seq!['0', 'X']);
    assert(hex_body(t) == h);
    assert(h[0] != '+');
}

/// The upper-case hexadecimal digit for `d`.
pub open spec fn upper_hex_digit(d: nat) -> char {
    if d < 10 {
        ((d + 0x30) as u32) as char
    } else {
        ((d - 10 + 0x41) as u32) as char
    }
}

/// `v` in exactly `w` upper-case hexadecimal digits (its lowest `w` digits),
/// as `%0*X` writes it.
pub open spec fn fixed_hex(v: nat, w: nat) -> Seq<char>
    decreases w,
{
    if w == 0 {
        Seq::empty()
    } else {
        fixed_hex(v / 16, (w - 1) as nat).push(upper_hex_digit(v % 16))
    }
}

pub open spec fn pow16(w: nat) -> nat
    decreases w,
{
    if w == 0 {
        1
    } else {
        16 * pow16((w - 1) as nat)
    }
}

/// A character that may stand in fixed-width hex text.
pub open spec fn is_upper_hex_char(c: char) -> bool {
    ('0' <= c <= '9') || ('A' <= c <= 'F')
}

proof fn lemma_fixed_hex(v: nat, w: nat)
    requires
        v < pow16(w),
    ensures
        fixed_hex(v, w).len() == w,
        digits_value(fixed_hex(v, w), 16) == Some(v),
        forall|k: int| 0 <= k < w ==> is_upper_hex_char(#[trigger] fixed_hex(v, w)[k]),
    decreases w,
{
    if w > 0 {
        assert(v / 16 < pow16((w - 1) as nat)) by (nonlinear_arith)
            requires
                v < 16 * pow16((w - 1) as nat),
        ;
        lemma_fixed_hex(v / 16, (w - 1) as nat);
        lemma_digits_push(fixed_hex(v / 16, (w - 1) as nat), upper_hex_digit(v % 16), 16);
        assert(digit_value(upper_hex_digit(v % 16), 16) == Some(v % 16));
        assert forall|k: int| 0 <= k < w implies is_upper_hex_char(#[trigger] fixed_hex(v, w)[k]) by {
            if k < w - 1 {
                assert(fixed_hex(v, w)[k] == fixed_hex(v / 16, (w - 1) as nat)[k]);
            }
        }
    }
}

proof fn lemma_pow16_8()
    ensures
        pow16(8) == 0x1_0000_0000,
{
    reveal_with_fuel(pow16, 9);
}

/// A counter instance name as Windows writes it: anything before, then
/// `luid_0x` and the high half in eight upper-case hex digits, `_0x` and
/// the low half likewise, then `_phys_` and anything after.
pub open spec fn gpu_instance_name(prefix: Seq<char>, high: u32, low: u32, suffix: Seq<char>) -> Seq<
    char,
> {
    prefix + luid_tag() + seq!['0', 'x'] + fixed_hex(high as nat, 8) + seq!['_', '0', 'x']
        + fixed_hex(low as nat, 8) + phys_tag() + suffix
}

/// The hex value after a `0x` prefix.
proof fn lemma_prefixed_hex_u32(v: u32)
    ensures
        spec_parse_hex_u32(seq!['0', 'x'] + fixed_hex(v as nat, 8)) == Some(v),
        (seq!['0', 'x'] + fixed_hex(v as nat, 8)).len() == 10,
        (seq!['0', 'x'] + fixed_hex(v as nat, 8))[0] == '0',
        !is_whitespace_code((seq!['0', 'x'] + fixed_hex(v as nat, 8))[9] as u32),
{
    lemma_pow16_8();
    lemma_fixed_hex(v as nat, 8);
    let h = fixed_hex(v as nat, 8);
    let a = seq!['0', 'x'] + h;
    assert(is_upper_hex_char(h[7]));
    assert(is_upper_hex_char(h[1]));
    assert(is_upper_hex_char(h[0]));
    assert(a[9] == h[7]);
    lemma_trim_identity(a, CharClass::Whitespace);
    assert(a.subrange(0, 2) =~= seq!['0', 'x']);
    assert(a.skip(2) =~= h);
    assert(h.subrange(0, 2)[1] == h[1]);
    lemma_strip_prefixes_once(a, seq!['0', 'x']);
    lemma_strip_prefixes_none(h, seq!['0', 'X']);
    assert(hex_body(a) == h);
    assert(unsigned_value(h, 16) == digits_value(h, 16));
}

/// The adapter key read from a counter instance name equals the key made
/// from the adapter's DXGI LUID (`adapter_luid_key`), when nothing before
/// `luid_` contains an `l`.
pub proof fn law_instance_luid_matches_adapter_key(
    prefix: Seq<char>,
    high_part: i32,
    low_part: u32,
    suffix: Seq<char>,
)
    requires
        forall|k: int| 0 <= k < prefix.len() ==> prefix[k] != 'l',
    ensures
        spec_parse_luid(gpu_instance_name(prefix, high_part as u32, low_part, suffix)) == Some(
            luid_text((high_part as u32) as nat * 0x1_0000_0000 + low_part as nat),
        ),
{
    let high = high_part as u32;
    let low = low_part;
    lemma_pow16_8();
    lemma_fixed_hex(high as nat, 8);
    lemma_fixed_hex(low as nat, 8);
    let hh = fixed_hex(high as nat, 8);
    let ll = fixed_hex(low as nat, 8);
    let a = seq!['0', 'x'] + hh;
    let b = seq!['0', 'x'] + ll;
    let name = gpu_instance_name(prefix, high, low, suffix);
    let p = prefix.len() as int;
    // The tag is found right after the prefix.
    assert(name.subrange(p, p + 5) =~= luid_tag());
    assert forall|j: int| 0 <= j < p implies !occurs_at(name, luid_tag(), j) by {
        if occurs_at(name, luid_tag(), j) {
            assert(name.subrange(j, j + 5)[0] == name[j]);
            assert(name[j] == prefix[j]);
        }
    }
    lemma_find_first(name, luid_tag(), p);
    // What follows the tag.
    let rem = name.skip(p + 5);
    let head = a + seq!['_'] + b;
    assert(rem =~= head + phys_tag() + suffix);
    assert(head.len() == 21);
    assert(rem.subrange(21, 27) =~= phys_tag());
    assert forall|j: int| 0 <= j < 21 implies !occurs_at(rem, phys_tag(), j) by {
        if occurs_at(rem, phys_tag(), j) {
            assert(rem.subrange(j, j + 6)[0] == rem[j]);
            assert(rem.subrange(j, j + 6)[1] == rem[j + 1]);
            if 2 <= j < 10 {
                assert(rem[j] == hh[j - 2]);
                assert(is_upper_hex_char(hh[j - 2]));
            } else if 13 <= j < 21 {
                assert(rem[j] == ll[j - 13]);
                assert(is_upper_hex_char(ll[j - 13]));
            }
        }
    }
    lemma_find_first(rem, phys_tag(), 21);
    assert(rem.take(21) =~= head);
    assert(is_upper_hex_char(ll[7]));
    assert(head[20] == ll[7]);
    lemma_trim_identity(head, CharClass::Underscore);
    assert(luid_raw(name, p) == head);
    // Splitting at the one underscore.
    assert forall|k: int| 0 <= k < 10 implies head[k] != '_' by {
        if 2 <= k {
            assert(head[k] == hh[k - 2]);
            assert(is_upper_hex_char(hh[k - 2]));
        }
    }
    assert forall|k: int| 11 <= k < 21 implies head[k] != '_' by {
        if 13 <= k {
            assert(head[k] == ll[k - 13]);
            assert(is_upper_hex_char(ll[k - 13]));
        }
    }
    lemma_split_no_sep(head, '_', 0, 10, 0);
    lemma_split_no_sep(head, '_', 11, 21, 11);
    assert(head.subrange(0, 10) =~= a);
    assert(head.subrange(11, 21) =~= b);
    assert(split_on(head, '_') =~= seq![a, b]);
    // Both halves survive trimming.
    lemma_prefixed_hex_u32(high);
    lemma_prefixed_hex_u32(low);
    lemma_trim_identity(a, CharClass::Whitespace);
    lemma_trim_identity(b, CharClass::Whitespace);
    assert(seq![a, b].drop_last() =~= seq![a]);
    assert(seq![a].drop_last() =~= Seq::<Seq<char>>::empty());
    assert(seq![a].last() == a);
    assert(seq![a, b].last() == b);
    assert(nonempty_trimmed(Seq::<Seq<char>>::empty()) == Seq::<Seq<char>>::empty());
    assert(Seq::<Seq<char>>::empty().push(a) =~= seq![a]);
    assert(nonempty_trimmed(seq![a]) =~= seq![a]);
    assert(nonempty_trimmed(seq![a, b]) =~= seq![a, b]);
}

} // verus!
