//! Choosing, grouping and ranking processes within one sample.
//!
//! The decisions work on `ProcessRecord`s, the integer part of each
//! process's sample, and answer with indices into the list they were given,
//! so that the measurements kept beside the records can follow.
use vstd::prelude::*;
use crate::data::{ProcessFilter, ProcessRecord};
use crate::text::{chars_of, string_of};

verus! {

// ---------------------------------------------------------------------------
// Regular expressions
// ---------------------------------------------------------------------------

#[verifier::external_type_specification]
#[verifier::external_body]
pub struct ExRegex(regex::Regex);

/// `regex::Regex::new` accepts `pattern`.
pub uninterp spec fn regex_compiles(pattern: Seq<char>) -> bool;

/// The regular expression `pattern` matches somewhere in `text`, as
/// `regex::Regex::is_match` answers it.
pub uninterp spec fn regex_finds_match(pattern: Seq<char>, text: Seq<char>) -> bool;

/// A compiled regular expression together with the pattern it was compiled
/// from. Only `compile_regex` makes one.
pub struct CompiledRegex {
    re: regex::Regex,
    pattern: Ghost<Seq<char>>,
}

impl CompiledRegex {
    pub closed spec fn source(&self) -> Seq<char> {
        self.pattern@
    }
}

/// Calls `regex::Regex::new`. Trusted: it succeeds exactly when
/// `regex_compiles` holds of the pattern, and the result remembers the
/// pattern.
#[verifier::external_body]
fn compile_regex(pattern: &str) -> (r: Option<CompiledRegex>)
    ensures
        r is Some <==> regex_compiles(pattern@),
        r matches Some(c) ==> c.source() == pattern@,
{
    match regex::Regex::new(pattern) {
        Ok(re) => Some(CompiledRegex { re, pattern: Ghost(pattern@) }),
        Err(_) => None,
    }
}

/// Calls `regex::Regex::is_match`. Trusted: the answer is
/// `regex_finds_match` of the pattern the expression was compiled from and
/// the text.
#[verifier::external_body]
fn regex_is_match(re: &CompiledRegex, text: &str) -> (b: bool)
    ensures
        b == regex_finds_match(re.source(), text@),
{
    re.re.is_match(text)
}

// ---------------------------------------------------------------------------
// Placeholders
// ---------------------------------------------------------------------------

pub open spec fn unknown_name() -> Seq<char> {
    seq!['<', 'u', 'n', 'k', 'n', 'o', 'w', 'n', '>']
}

/// The record reported for a requested process id with no running process.
pub fn create_placeholder_process(pid: u32) -> (p: ProcessRecord)
    ensures
        p.pid == pid,
        p.name@ == unknown_name(),
        p.handle_count == 0,
{
    let name = vec!['<', 'u', 'n', 'k', 'n', 'o', 'w', 'n', '>'];
    assert(name@ =~= unknown_name());
    ProcessRecord { pid, name: string_of(&name), handle_count: 0 }
}

// ---------------------------------------------------------------------------
// Filtering
// ---------------------------------------------------------------------------

/// One process chosen by a filter.
#[derive(Debug, Clone, Copy, PartialEq, Eq, Structural)]
pub enum Selected {
    /// The record at this index of the sample.
    Cached(usize),
    /// A placeholder for a requested process id that is not running.
    Placeholder(u32),
}

/// The index of the first record with process id `pid` at or after `i`.
pub open spec fn pid_index_from(records: Seq<ProcessRecord>, pid: u32, i: int) -> Option<int>
    decreases records.len() - i,
{
    if i < 0 || i >= records.len() {
        None
    } else if records[i].pid == pid {
        Some(i)
    } else {
        pid_index_from(records, pid, i + 1)
    }
}

/// What a requested process id selects: the first record with that id, or
/// a placeholder.
pub open spec fn select_pid(records: Seq<ProcessRecord>, pid: u32) -> Selected {
    match pid_index_from(records, pid, 0) {
        Some(j) => Selected::Cached(j as usize),
        None => Selected::Placeholder(pid),
    }
}

/// The indices, in order, of the first `n` records that `keep` holds of.
pub open spec fn cached_where(
    records: Seq<ProcessRecord>,
    keep: spec_fn(ProcessRecord) -> bool,
    n: int,
) -> Seq<Selected>
    decreases n,
{
    if n <= 0 {
        Seq::empty()
    } else {
        let rest = cached_where(records, keep, n - 1);
        if keep(records[n - 1]) {
            rest.push(Selected::Cached((n - 1) as usize))
        } else {
            rest
        }
    }
}

/// `names` holds `name`.
pub open spec fn names_contain(names: Seq<String>, name: Seq<char>) -> bool {
    exists|k: int| 0 <= k < names.len() && (#[trigger] names[k])@ == name
}

/// The processes a filter selects from a sample, in order: for process ids,
/// one entry per requested id in the requested order; otherwise the
/// matching records in sample order. An invalid regular expression selects
/// nothing.
pub open spec fn filter_selection(filter: Option<ProcessFilter>, records: Seq<ProcessRecord>) -> Seq<
    Selected,
> {
    match filter {
        None => Seq::empty(),
        Some(ProcessFilter::Pids(pids)) => pids@.map_values(|p: u32| select_pid(records, p)),
        Some(ProcessFilter::Name(name)) => cached_where(
            records,
            |r: ProcessRecord| r.name@ == name@,
            records.len() as int,
        ),
        Some(ProcessFilter::Names(names)) => cached_where(
            records,
            |r: ProcessRecord| names_contain(names@, r.name@),
            records.len() as int,
        ),
        Some(ProcessFilter::NameRegex(pattern)) => if regex_compiles(pattern@) {
            cached_where(
                records,
                |r: ProcessRecord| regex_finds_match(pattern@, r.name@),
                records.len() as int,
            )
        } else {
            Seq::empty()
        },
    }
}

fn select_one_pid(records: &Vec<ProcessRecord>, pid: u32) -> (s: Selected)
    ensures
        s == select_pid(records@, pid),
{
    let mut j: usize = 0;
    while j < records.len()
        invariant
            j <= records@.len(),
            pid_index_from(records@, pid, 0) == pid_index_from(records@, pid, j as int),
        decreases records@.len() - j,
    {
        if records[j].pid == pid {
            return Selected::Cached(j);
        }
        j += 1;
    }
    Selected::Placeholder(pid)
}

fn name_in(names: &Vec<String>, name: &String) -> (b: bool)
    ensures
        b == names_contain(names@, name@),
{
    let mut k: usize = 0;
    while k < names.len()
        invariant
            k <= names@.len(),
            forall|m: int| 0 <= m < k ==> (#[trigger] names@[m])@ != name@,
        decreases names@.len() - k,
    {
        if names[k] == *name {
            return true;
        }
        k += 1;
    }
    false
}

/// The indices, in order, of the first `n` flags that are set.
pub open spec fn flagged_indices(flags: Seq<bool>, n: int) -> Seq<Selected>
    decreases n,
{
    if n <= 0 {
        Seq::empty()
    } else {
        let rest = flagged_indices(flags, n - 1);
        if flags[n - 1] {
            rest.push(Selected::Cached((n - 1) as usize))
        } else {
            rest
        }
    }
}

/// The records whose flag is set, in sample order: what a filter selects
/// once it knows, record by record, whether each one matches.
pub fn selected_where(flags: &Vec<bool>) -> (r: Vec<Selected>)
    ensures
        r@ == flagged_indices(flags@, flags@.len() as int),
{
    let mut r: Vec<Selected> = Vec::new();
    let mut j: usize = 0;
    while j < flags.len()
        invariant
            j <= flags@.len(),
            r@ == flagged_indices(flags@, j as int),
        decreases flags@.len() - j,
    {
        if flags[j] {
            r.push(Selected::Cached(j));
        }
        j += 1;
    }
    r
}

proof fn lemma_cached_where_flags(
    records: Seq<ProcessRecord>,
    keep: spec_fn(ProcessRecord) -> bool,
    flags: Seq<bool>,
    n: int,
)
    requires
        0 <= n <= records.len(),
        flags.len() == records.len(),
        forall|k: int| 0 <= k < records.len() ==> flags[k] == keep(#[trigger] records[k]),
    ensures
        cached_where(records, keep, n) == flagged_indices(flags, n),
    decreases n,
{
    if n > 0 {
        lemma_cached_where_flags(records, keep, flags, n - 1);
        assert(flags[n - 1] == keep(records[n - 1]));
    }
}

/// The processes a filter selects from a sample, as `filter_selection`
/// describes.
pub fn filter_processes_from_cache(filter: &Option<ProcessFilter>, cached: &Vec<ProcessRecord>) -> (r:
    Vec<Selected>)
    ensures
        r@ == filter_selection(*filter, cached@),
{
    let mut r: Vec<Selected> = Vec::new();
    match filter {
        None => {},
        Some(ProcessFilter::Pids(pids)) => {
            let mut i: usize = 0;
            while i < pids.len()
                invariant
                    i <= pids@.len(),
                    r@ == pids@.take(i as int).map_values(|p: u32| select_pid(cached@, p)),
                decreases pids@.len() - i,
            {
                let s = select_one_pid(cached, pids[i]);
                r.push(s);
                i += 1;
                assert(pids@.take(i as int).map_values(|p: u32| select_pid(cached@, p))
                    =~= pids@.take(i - 1).map_values(|p: u32| select_pid(cached@, p)).push(s));
            }
            assert(pids@.take(pids@.len() as int) =~= pids@);
        },
        Some(ProcessFilter::Name(name)) => {
            let ghost keep = |r: ProcessRecord| r.name@ == name@;
            let mut j: usize = 0;
            while j < cached.len()
                invariant
                    j <= cached@.len(),
                    keep == (|r: ProcessRecord| r.name@ == name@),
                    r@ == cached_where(cached@, keep, j as int),
                decreases cached@.len() - j,
            {
                if cached[j].name == *name {
                    r.push(Selected::Cached(j));
                }
                j += 1;
            }
        },
        Some(ProcessFilter::Names(names)) => {
            let ghost keep = |r: ProcessRecord| names_contain(names@, r.name@);
            let mut j: usize = 0;
            while j < cached.len()
                invariant
                    j <= cached@.len(),
                    keep == (|r: ProcessRecord| names_contain(names@, r.name@)),
                    r@ == cached_where(cached@, keep, j as int),
                decreases cached@.len() - j,
            {
                if name_in(names, &cached[j].name) {
                    r.push(Selected::Cached(j));
                }
                j += 1;
            }
        },
        Some(ProcessFilter::NameRegex(pattern)) => {
            match compile_regex(pattern.as_str()) {
                None => {},
                Some(re) => {
                    let mut flags: Vec<bool> = Vec::new();
                    let mut j: usize = 0;
                    while j < cached.len()
                        invariant
                            j <= cached@.len(),
                            re.source() == pattern@,
                            flags@.len() == j,
                            forall|k: int|
                                0 <= k < j ==> flags@[k] == regex_finds_match(
                                    pattern@,
                                    (#[trigger] cached@[k]).name@,
                                ),
                        decreases cached@.len() - j,
                    {
                        flags.push(regex_is_match(&re, cached[j].name.as_str()));
                        j += 1;
                    }
                    r = selected_where(&flags);
                    proof {
                        let keep = |rec: ProcessRecord| regex_finds_match(pattern@, rec.name@);
                        lemma_cached_where_flags(cached@, keep, flags@, cached@.len() as int);
                    }
                },
            }
        },
    }
    r
}

// ---------------------------------------------------------------------------
// Grouping by name
// ---------------------------------------------------------------------------

pub open spec fn names_of(records: Seq<ProcessRecord>) -> Seq<Seq<char>> {
    records.map_values(|r: ProcessRecord| r.name@)
}

/// The distinct names of `names`, in order of first appearance.
pub open spec fn first_seen_names(names: Seq<Seq<char>>) -> Seq<Seq<char>>
    decreases names.len(),
{
    if names.len() == 0 {
        Seq::empty()
    } else {
        let rest = first_seen_names(names.drop_last());
        if rest.contains(names.last()) {
            rest
        } else {
            rest.push(names.last())
        }
    }
}

/// The indices, in order, of the first `n` records named `name`.
pub open spec fn member_indices(records: Seq<ProcessRecord>, name: Seq<char>, n: int) -> Seq<usize>
    decreases n,
{
    if n <= 0 {
        Seq::empty()
    } else {
        let rest = member_indices(records, name, n - 1);
        if records[n - 1].name@ == name {
            rest.push((n - 1) as usize)
        } else {
            rest
        }
    }
}

/// The sum of the handle counts of the records at `members`.
pub open spec fn handle_total(records: Seq<ProcessRecord>, members: Seq<usize>) -> int
    decreases members.len(),
{
    if members.len() == 0 {
        0
    } else {
        handle_total(records, members.drop_last()) + records[members.last() as int].handle_count
    }
}

/// The processes of one name within a sample.
#[derive(Debug, Clone)]
pub struct ProcessGroup {
    pub name: String,
    /// Their process ids, in sample order.
    pub pids: Vec<u32>,
    /// Their indices in the sample, in order.
    pub members: Vec<usize>,
    /// The sum of their handle counts.
    pub handle_count_total: u32,
}

impl ProcessGroup {
    /// How many processes the group holds.
    pub fn process_count(&self) -> (n: usize)
        ensures
            n == self.members@.len(),
    {
        self.members.len()
    }
}

/// `g` is the group of the processes named `name` in `records`.
pub open spec fn is_group_of(g: ProcessGroup, records: Seq<ProcessRecord>, name: Seq<char>) -> bool {
    &&& g.name@ == name
    &&& g.members@ == member_indices(records, name, records.len() as int)
    &&& g.pids@ == g.members@.map_values(|m: usize| records[m as int].pid)
    &&& g.handle_count_total == handle_total(records, g.members@)
}

pub proof fn lemma_member_indices_bound(records: Seq<ProcessRecord>, name: Seq<char>, n: int)
    requires
        0 <= n <= records.len(),
    ensures
        forall|k: int|
            0 <= k < member_indices(records, name, n).len() ==> #[trigger] member_indices(
                records,
                name,
                n,
            )[k] < n,
        member_indices(records, name, n).len() <= n,
    decreases n,
{
    if n > 0 {
        lemma_member_indices_bound(records, name, n - 1);
    }
}

/// The group of the processes named `name`; `None` if their handle counts
/// add up to more than a `u32` holds.
fn group_named(records: &Vec<ProcessRecord>, name: &String) -> (r: Option<ProcessGroup>)
    ensures
        match r {
            Some(g) => is_group_of(g, records@, name@),
            None => handle_total(records@, member_indices(records@, name@, records@.len() as int))
                > u32::MAX,
        },
{
    let mut members: Vec<usize> = Vec::new();
    let mut pids: Vec<u32> = Vec::new();
    let mut total: u32 = 0;
    let mut overflow = false;
    let mut j: usize = 0;
    while j < records.len()
        invariant
            j <= records@.len(),
            members@ == member_indices(records@, name@, j as int),
            pids@ == members@.map_values(|m: usize| records@[m as int].pid),
            !overflow ==> total == handle_total(records@, members@),
            overflow ==> handle_total(records@, members@) > u32::MAX,
            handle_total(records@, members@) >= 0,
        decreases records@.len() - j,
    {
        if records[j].name == *name {
            let ghost before = members@;
            members.push(j);
            pids.push(records[j].pid);
            assert(members@.drop_last() =~= before);
            assert(pids@ =~= members@.map_values(|m: usize| records@[m as int].pid));
            if !overflow {
                match total.checked_add(records[j].handle_count) {
                    Some(t) => {
                        total = t;
                    },
                    None => {
                        overflow = true;
                    },
                }
            }
        }
        j += 1;
    }
    if overflow {
        None
    } else {
        Some(ProcessGroup { name: string_of(&chars_of(name.as_str())), pids, members, handle_count_total: total })
    }
}

/// The distinct names of the sample, in order of first appearance.
fn distinct_names(records: &Vec<ProcessRecord>) -> (names: Vec<String>)
    ensures
        names@.map_values(|s: String| s@) == first_seen_names(names_of(records@)),
{
    let mut names: Vec<String> = Vec::new();
    let mut j: usize = 0;
    while j < records.len()
        invariant
            j <= records@.len(),
            names@.map_values(|s: String| s@) == first_seen_names(names_of(records@).take(j as int)),
        decreases records@.len() - j,
    {
        let ghost seen = names@.map_values(|s: String| s@);
        let ghost prefix = names_of(records@).take(j + 1);
        assert(prefix.drop_last() =~= names_of(records@).take(j as int));
        assert(prefix.last() == records@[j as int].name@);
        let mut k: usize = 0;
        let mut found = false;
        while k < names.len() && !found
            invariant
                k <= names@.len(),
                j < records@.len(),
                seen == names@.map_values(|s: String| s@),
                found ==> k < names@.len() && names@[k as int]@ == records@[j as int].name@,
                forall|m: int| 0 <= m < k ==> names@[m]@ != records@[j as int].name@,
            decreases names@.len() - k + (if found {
                0int
            } else {
                1int
            }),
        {
            if names[k] == records[j].name {
                found = true;
            } else {
                k += 1;
            }
        }
        if found {
            assert(seen[k as int] == records@[j as int].name@);
        } else {
            assert(!seen.contains(records@[j as int].name@)) by {
                if seen.contains(records@[j as int].name@) {
                    let m = choose|m: int| 0 <= m < seen.len() && seen[m] == records@[j as int].name@;
                    assert(names@[m]@ == seen[m]);
                }
            }
            let s = string_of(&chars_of(records[j].name.as_str()));
            names.push(s);
            assert(names@.map_values(|s: String| s@) =~= seen.push(s@));
        }
        j += 1;
    }
    assert(names_of(records@).take(records@.len() as int) =~= names_of(records@));
    names
}

/// The processes of the sample grouped by name, groups in order of first
/// appearance. `None` if some group's handle counts add up to more than a
/// `u32` holds.
pub fn aggregate_processes(records: &Vec<ProcessRecord>) -> (r: Option<Vec<ProcessGroup>>)
    ensures
        match r {
            Some(groups) => groups@.len() == first_seen_names(names_of(records@)).len() && forall|
                g: int,
            |
                0 <= g < groups@.len() ==> is_group_of(
                    #[trigger] groups@[g],
                    records@,
                    first_seen_names(names_of(records@))[g],
                ),
            None => exists|g: int|
                0 <= g < first_seen_names(names_of(records@)).len() && handle_total(
                    records@,
                    member_indices(
                        records@,
                        #[trigger] first_seen_names(names_of(records@))[g],
                        records@.len() as int,
                    ),
                ) > u32::MAX,
        },
{
    let names = distinct_names(records);
    let ghost order = first_seen_names(names_of(records@));
    assert(names@.len() == order.len()) by {
        assert(names@.map_values(|s: String| s@).len() == names@.len());
    }
    let mut groups: Vec<ProcessGroup> = Vec::new();
    let mut g: usize = 0;
    while g < names.len()
        invariant
            g <= names@.len(),
            names@.map_values(|s: String| s@) == order,
            order == first_seen_names(names_of(records@)),
            names@.len() == order.len(),
            groups@.len() == g,
            forall|h: int| 0 <= h < g ==> is_group_of(#[trigger] groups@[h], records@, order[h]),
        decreases names@.len() - g,
    {
        assert(names@[g as int]@ == order[g as int]);
        match group_named(records, &names[g]) {
            Some(grp) => {
                groups.push(grp);
            },
            None => {
                return None;
            },
        }
        g += 1;
    }
    Some(groups)
}

// ---------------------------------------------------------------------------
// Ranking
// ---------------------------------------------------------------------------

/// Index `i` comes before index `j` when ranking by `keys` from largest to
/// smallest, earlier indices first among equal keys (a stable descending
/// sort).
pub open spec fn precedes(keys: Seq<u64>, i: int, j: int) -> bool {
    keys[i] > keys[j] || (keys[i] == keys[j] && i < j)
}

/// `r` holds the first `n` indices of `keys` (all of them if there are
/// fewer) in the order of a stable descending sort by key.
pub open spec fn is_top_n(keys: Seq<u64>, n: nat, r: Seq<usize>) -> bool {
    &&& r.len() == (if n < keys.len() {
        n
    } else {
        keys.len()
    })
    &&& forall|a: int| 0 <= a < r.len() ==> (#[trigger] r[a]) < keys.len()
    &&& forall|a: int, b: int| 0 <= a < b < r.len() ==> precedes(keys, r[a] as int, r[b] as int)
    &&& forall|a: int, j: int|
        0 <= a < r.len() && 0 <= j < keys.len() && !r.contains(j as usize) ==> #[trigger] precedes(
            keys,
            r[a] as int,
            j,
        )
}

/// The first `n` indices of `keys` in the order of a stable sort from the
/// largest key to the smallest.
pub fn top_n_indices(keys: &Vec<u64>, n: usize) -> (r: Vec<usize>)
    ensures
        is_top_n(keys@, n as nat, r@),
{
    let len = keys.len();
    let m = if n < len {
        n
    } else {
        len
    };
    let mut chosen: Vec<bool> = Vec::new();
    let mut i: usize = 0;
    while i < len
        invariant
            i <= len,
            len == keys@.len(),
            chosen@.len() == i,
            forall|j: int| 0 <= j < i ==> !chosen@[j],
            count_true(chosen@) == 0,
        decreases len - i,
    {
        let ghost before = chosen@;
        chosen.push(false);
        assert(chosen@.drop_last() =~= before);
        i += 1;
    }
    let mut r: Vec<usize> = Vec::new();
    while r.len() < m
        invariant
            m <= len,
            len == keys@.len(),
            m as nat == (if (n as nat) < keys@.len() {
                n as nat
            } else {
                keys@.len()
            }),
            chosen@.len() == len,
            r@.len() <= m,
            forall|a: int| 0 <= a < r@.len() ==> (#[trigger] r@[a]) < len,
            forall|j: int| 0 <= j < len ==> (chosen@[j] <==> r@.contains(j as usize)),
            forall|a: int, b: int| 0 <= a < b < r@.len() ==> precedes(keys@, r@[a] as int, r@[b] as int),
            forall|a: int, j: int|
                0 <= a < r@.len() && 0 <= j < len && !chosen@[j] ==> #[trigger] precedes(
                    keys@,
                    r@[a] as int,
                    j,
                ),
            count_true(chosen@) == r@.len(),
        decreases m - r@.len(),
    {
        // Some index is still free, since fewer than `len` are taken.
        assert(exists|j: int| 0 <= j < len && !chosen@[j]) by {
            if forall|j: int| 0 <= j < len ==> chosen@[j] {
                lemma_count_true_all(chosen@);
            }
        }
        let mut best: usize = len;
        let mut j: usize = 0;
        while j < len
            invariant
                j <= len,
                len == keys@.len(),
                chosen@.len() == len,
                best == len || (best < j && !chosen@[best as int]),
                best == len ==> forall|k: int| 0 <= k < j ==> chosen@[k],
                best < len ==> forall|k: int|
                    0 <= k < j && !chosen@[k] && k != best ==> precedes(keys@, best as int, k),
            decreases len - j,
        {
            if !chosen[j] {
                if best == len || keys[j] > keys[best] {
                    best = j;
                }
            }
            j += 1;
        }
        assert(best < len);
        let ghost before = r@;
        let ghost old_chosen = chosen@;
        proof {
            lemma_count_true_set(chosen@, best as int);
        }
        chosen.set(best, true);
        r.push(best);
        assert(r@.drop_last() == before);
        assert(chosen@ == old_chosen.update(best as int, true));
        assert(r@[r@.len() - 1] == best);
        assert forall|k: int| 0 <= k < len implies (chosen@[k] <==> r@.contains(k as usize)) by {
            if k == best {
                assert(r@[r@.len() - 1] == k as usize);
            }
            if chosen@[k] && k != best {
                assert(old_chosen[k]);
                assert(before.contains(k as usize));
                let a = choose|a: int| 0 <= a < before.len() && before[a] == k as usize;
                assert(r@[a] == k as usize);
            }
            if r@.contains(k as usize) && k != best {
                let a = choose|a: int| 0 <= a < r@.len() && r@[a] == k as usize;
                assert(a < before.len());
                assert(before.contains(k as usize));
            }
        }
    }
    proof {
        assert forall|a: int, j: int|
            0 <= a < r@.len() && 0 <= j < len && !r@.contains(j as usize) implies #[trigger] precedes(
            keys@,
            r@[a] as int,
            j,
        ) by {
            assert(!chosen@[j]);
        }
    }
    r
}

/// How many entries of `s` are `true`.
pub open spec fn count_true(s: Seq<bool>) -> nat
    decreases s.len(),
{
    if s.len() == 0 {
        0
    } else {
        count_true(s.drop_last()) + (if s.last() {
            1nat
        } else {
            0nat
        })
    }
}

proof fn lemma_count_true_all(s: Seq<bool>)
    requires
        forall|j: int| 0 <= j < s.len() ==> s[j],
    ensures
        count_true(s) == s.len(),
    decreases s.len(),
{
    if s.len() > 0 {
        lemma_count_true_all(s.drop_last());
    }
}

proof fn lemma_count_true_set(s: Seq<bool>, k: int)
    requires
        0 <= k < s.len(),
        !s[k],
    ensures
        count_true(s.update(k, true)) == count_true(s) + 1,
    decreases s.len(),
{
    let u = s.update(k, true);
    if k == s.len() - 1 {
        assert(u.drop_last() =~= s.drop_last());
    } else {
        assert(u.drop_last() =~= s.drop_last().update(k, true));
        lemma_count_true_set(s.drop_last(), k);
    }
}

// ---------------------------------------------------------------------------
// Laws
// ---------------------------------------------------------------------------

proof fn lemma_top_n_prefix(keys: Seq<u64>, n: nat, r1: Seq<usize>, r2: Seq<usize>, a: int)
    requires
        is_top_n(keys, n, r1),
        is_top_n(keys, n, r2),
        0 <= a < r1.len(),
    ensures
        forall|b: int| 0 <= b <= a ==> r1[b] == r2[b],
    decreases a,
{
    if a > 0 {
        lemma_top_n_prefix(keys, n, r1, r2, a - 1);
    }
    let x = r1[a];
    let y = r2[a];
    if x != y {
        // `y` comes after `x` in the ranking of `r1`.
        if r1.contains(y) {
            let c = choose|c: int| 0 <= c < r1.len() && r1[c] == y;
            if c < a {
                assert(r2[c] == y);
                assert(precedes(keys, r2[c] as int, r2[a] as int));
            }
            assert(c > a);
            assert(precedes(keys, x as int, y as int));
        } else {
            assert(precedes(keys, r1[a] as int, y as int));
        }
        if r2.contains(x) {
            let c = choose|c: int| 0 <= c < r2.len() && r2[c] == x;
            if c < a {
                assert(r1[c] == x);
                assert(precedes(keys, r1[c] as int, r1[a] as int));
            }
            assert(c > a);
            assert(precedes(keys, y as int, x as int));
        } else {
            assert(precedes(keys, r2[a] as int, x as int));
        }
        assert(false);
    }
}

/// The ranking is fully determined: any two index lists that both meet
/// `is_top_n` for the same keys and count are equal.
pub proof fn law_top_n_unique(keys: Seq<u64>, n: nat, r1: Seq<usize>, r2: Seq<usize>)
    requires
        is_top_n(keys, n, r1),
        is_top_n(keys, n, r2),
    ensures
        r1 == r2,
{
    if r1.len() > 0 {
        lemma_top_n_prefix(keys, n, r1, r2, r1.len() - 1);
    }
    assert(r1 =~= r2);
}

proof fn lemma_member_indices_contains(records: Seq<ProcessRecord>, x: Seq<char>, n: int, k: int)
    requires
        0 <= n <= records.len(),
        records.len() <= usize::MAX,
        0 <= k <= usize::MAX,
    ensures
        member_indices(records, x, n).contains(k as usize) <==> (0 <= k < n && records[k].name@
            == x),
    decreases n,
{
    if n > 0 {
        lemma_member_indices_contains(records, x, n - 1, k);
        lemma_member_indices_bound(records, x, n - 1);
        let rest = member_indices(records, x, n - 1);
        if records[n - 1].name@ == x {
            assert(rest.push((n - 1) as usize)[rest.len() as int] == (n - 1) as usize);
            if rest.push((n - 1) as usize).contains(k as usize) && k != n - 1 {
                let pushed = rest.push((n - 1) as usize);
                let m = choose|m: int| 0 <= m < pushed.len() && #[trigger] pushed[m] == k as usize;
                assert(m < rest.len());
                assert(rest[m] == k as usize);
            }
            if rest.contains(k as usize) {
                let m = choose|m: int| 0 <= m < rest.len() && rest[m] == k as usize;
                assert(rest.push((n - 1) as usize)[m] == k as usize);
            }
        } else {
            if 0 <= k < n && records[k].name@ == x {
                assert(k != n - 1);
            }
            if rest.contains(k as usize) {
                let m = choose|m: int| 0 <= m < rest.len() && rest[m] == k as usize;
                assert(rest[m] < n - 1);
            }
        }
    }
}

proof fn lemma_first_seen(names: Seq<Seq<char>>)
    ensures
        forall|x: Seq<char>| first_seen_names(names).contains(x) <==> names.contains(x),
        first_seen_names(names).no_duplicates(),
    decreases names.len(),
{
    if names.len() > 0 {
        let d = names.drop_last();
        lemma_first_seen(d);
        let rest = first_seen_names(d);
        let last = names.last();
        assert forall|x: Seq<char>| first_seen_names(names).contains(x) <==> names.contains(x) by {
            if names.contains(x) {
                let i = choose|i: int| 0 <= i < names.len() && names[i] == x;
                if i < names.len() - 1 {
                    assert(d[i] == x);
                    assert(d.contains(x));
                    if !rest.contains(last) {
                        let m = choose|m: int| 0 <= m < rest.len() && rest[m] == x;
                        assert(rest.push(last)[m] == x);
                    }
                } else if !rest.contains(last) {
                    assert(rest.push(last)[rest.len() as int] == last);
                }
            }
            if first_seen_names(names).contains(x) {
                if rest.contains(x) {
                    assert(d.contains(x));
                    let i = choose|i: int| 0 <= i < d.len() && d[i] == x;
                    assert(names[i] == x);
                } else {
                    let pushed = rest.push(last);
                    let m = choose|m: int| 0 <= m < pushed.len() && #[trigger] pushed[m] == x;
                    if m < rest.len() {
                        assert(rest[m] == x);
                    }
                    assert(names[names.len() - 1] == x);
                }
            }
        }
        if !rest.contains(last) {
            assert forall|i: int, j: int|
                0 <= i < rest.len() + 1 && 0 <= j < rest.len() + 1 && i != j implies rest.push(
                last,
            )[i] != rest.push(last)[j] by {
                if i == rest.len() as int {
                    assert(rest[j] != last);
                } else if j == rest.len() as int {
                    assert(rest[i] != last);
                }
            }
        }
    }
}

/// The sample index a selection points at, or -1 for a placeholder.
pub open spec fn selected_index(s: Selected) -> int {
    match s {
        Selected::Cached(i) => i as int,
        Selected::Placeholder(_) => -1,
    }
}

/// Some entry of `sel` points at sample index `j`.
pub open spec fn selects_index(sel: Seq<Selected>, j: int) -> bool {
    exists|a: int| 0 <= a < sel.len() && #[trigger] selected_index(sel[a]) == j
}

proof fn lemma_cached_where_members(
    records: Seq<ProcessRecord>,
    keep: spec_fn(ProcessRecord) -> bool,
    n: int,
)
    requires
        0 <= n <= records.len() <= usize::MAX,
    ensures
        forall|j: int|
            0 <= j < records.len() ==> (#[trigger] selects_index(cached_where(records, keep, n), j)
                <==> (j < n && keep(records[j]))),
        forall|a: int|
            0 <= a < cached_where(records, keep, n).len() ==> 0 <= #[trigger] selected_index(
                cached_where(records, keep, n)[a],
            ) < n,
        forall|a: int, b: int|
            0 <= a < b < cached_where(records, keep, n).len() ==> selected_index(
                #[trigger] cached_where(records, keep, n)[a],
            ) < selected_index(#[trigger] cached_where(records, keep, n)[b]),
    decreases n,
{
    if n > 0 {
        lemma_cached_where_members(records, keep, n - 1);
        let rest = cached_where(records, keep, n - 1);
        let all = cached_where(records, keep, n);
        if keep(records[n - 1]) {
            assert(all == rest.push(Selected::Cached((n - 1) as usize)));
            assert(selected_index(all[rest.len() as int]) == n - 1);
        } else {
            assert(all == rest);
        }
        assert forall|j: int| 0 <= j < records.len() implies (#[trigger] selects_index(all, j) <==> (j
            < n && keep(records[j]))) by {
            if keep(records[n - 1]) {
                if selects_index(all, j) {
                    let a = choose|a: int| 0 <= a < all.len() && #[trigger] selected_index(all[a]) == j;
                    if a < rest.len() {
                        assert(rest[a] == all[a]);
                        assert(selects_index(rest, j));
                    }
                }
                if j < n - 1 && keep(records[j]) {
                    assert(selects_index(rest, j));
                    let a = choose|a: int|
                        0 <= a < rest.len() && #[trigger] selected_index(rest[a]) == j;
                    assert(all[a] == rest[a]);
                    assert(selected_index(all[a]) == j);
                }
                if j == n - 1 {
                    assert(selected_index(all[rest.len() as int]) == j);
                }
            }
        }
        assert forall|a: int, b: int| 0 <= a < b < all.len() implies selected_index(
            #[trigger] all[a],
        ) < selected_index(#[trigger] all[b]) by {
            if keep(records[n - 1]) && b == rest.len() {
                assert(all[a] == rest[a]);
                assert(0 <= selected_index(rest[a]) < n - 1);
            } else if keep(records[n - 1]) {
                assert(all[a] == rest[a]);
                assert(all[b] == rest[b]);
            }
        }
        assert forall|a: int| 0 <= a < all.len() implies 0 <= #[trigger] selected_index(all[a])
            < n by {
            if keep(records[n - 1]) && a < rest.len() {
                assert(all[a] == rest[a]);
            }
        }
    }
}

/// A filter by name, by one of several names, or by a regular expression
/// selects, in sample order and each once, exactly the records whose name
/// is that name, is one of those names, or contains a match of the pattern
/// as given (nothing at all when the pattern does not compile).
pub proof fn law_name_filters_select_matching(filter: ProcessFilter, records: Seq<ProcessRecord>)
    requires
        !(filter is Pids),
        records.len() <= usize::MAX,
    ensures
        forall|j: int|
            0 <= j < records.len() ==> (#[trigger] selects_index(
                filter_selection(Some(filter), records),
                j,
            ) <==> match filter {
                ProcessFilter::Name(n) => records[j].name@ == n@,
                ProcessFilter::Names(ns) => exists|k: int|
                    0 <= k < ns@.len() && (#[trigger] ns@[k])@ == records[j].name@,
                ProcessFilter::NameRegex(p) => regex_compiles(p@) && regex_finds_match(
                    p@,
                    records[j].name@,
                ),
                ProcessFilter::Pids(_) => false,
            }),
        forall|a: int|
            0 <= a < filter_selection(Some(filter), records).len() ==> 0 <= #[trigger] selected_index(
                filter_selection(Some(filter), records)[a],
            ) < records.len(),
        forall|a: int, b: int|
            0 <= a < b < filter_selection(Some(filter), records).len() ==> selected_index(
                #[trigger] filter_selection(Some(filter), records)[a],
            ) < selected_index(#[trigger] filter_selection(Some(filter), records)[b]),
{
    let n = records.len() as int;
    match filter {
        ProcessFilter::Name(name) => {
            lemma_cached_where_members(records, |r: ProcessRecord| r.name@ == name@, n);
        },
        ProcessFilter::Names(names) => {
            lemma_cached_where_members(
                records,
                |r: ProcessRecord| names_contain(names@, r.name@),
                n,
            );
        },
        ProcessFilter::NameRegex(pattern) => {
            lemma_cached_where_members(
                records,
                |r: ProcessRecord| regex_finds_match(pattern@, r.name@),
                n,
            );
            if !regex_compiles(pattern@) {
                assert forall|j: int| 0 <= j < records.len() implies !#[trigger] selects_index(
                    filter_selection(Some(filter), records),
                    j,
                ) by {
                    assert(filter_selection(Some(filter), records).len() == 0);
                }
            }
        },
        ProcessFilter::Pids(_) => {},
    }
}

/// Grouping puts every process of a sample in exactly one group, the group
/// of its name.
pub proof fn law_each_process_in_one_group(records: Seq<ProcessRecord>, j: int)
    requires
        0 <= j < records.len(),
        records.len() <= usize::MAX,
    ensures
        exists|g: int|
            0 <= g < first_seen_names(names_of(records)).len() && #[trigger] first_seen_names(
                names_of(records),
            )[g] == records[j].name@ && member_indices(
                records,
                first_seen_names(names_of(records))[g],
                records.len() as int,
            ).contains(j as usize),
        forall|g1: int, g2: int|
            0 <= g1 < first_seen_names(names_of(records)).len() && 0 <= g2 < first_seen_names(
                names_of(records),
            ).len() && member_indices(
                records,
                #[trigger] first_seen_names(names_of(records))[g1],
                records.len() as int,
            ).contains(j as usize) && member_indices(
                records,
                #[trigger] first_seen_names(names_of(records))[g2],
                records.len() as int,
            ).contains(j as usize) ==> g1 == g2,
{
    let names = names_of(records);
    let order = first_seen_names(names);
    lemma_first_seen(names);
    let x = records[j].name@;
    assert(names[j] == x);
    assert(names.contains(x));
    assert(order.contains(x));
    let g = choose|g: int| 0 <= g < order.len() && order[g] == x;
    lemma_member_indices_contains(records, x, records.len() as int, j);
    assert forall|g1: int, g2: int|
        0 <= g1 < order.len() && 0 <= g2 < order.len() && member_indices(
            records,
            #[trigger] order[g1],
            records.len() as int,
        ).contains(j as usize) && member_indices(
            records,
            #[trigger] order[g2],
            records.len() as int,
        ).contains(j as usize) implies g1 == g2 by {
        lemma_member_indices_contains(records, order[g1], records.len() as int, j);
        lemma_member_indices_contains(records, order[g2], records.len() as int, j);
    }
}

} // verus!
