use crate::config::{read_size, size_text, Config, Meta};
use crate::dedup::ShardedSet;
use crate::format::{push_char, OutputSize};
use crate::path::PathBuf;
use vstd::prelude::*;

verus! {

/// One visited filesystem entry, as the walk met it.
///
/// A walk is a list of entries in visiting order: each entry comes before
/// the entries below it, and `depth` counts the steps from its root (a root
/// has depth 0). The entries below a directory are those that follow it with
/// a greater depth.
pub struct Entry {
    /// The path the entry was reached by.
    pub path: PathBuf,
    /// The number of steps from the root that the entry belongs to.
    pub depth: u64,
    /// The entry's metadata, or the description of why it could not be read.
    pub meta: Result<Meta, String>,
}

/// The outcome of one walk.
pub struct Report {
    /// The grand total over every root.
    pub total: OutputSize,
    /// One line per printed entry: size, tab, path, terminator.
    pub lines: Vec<String>,
    /// One line per entry whose metadata could not be read.
    pub faults: Vec<String>,
}

/// The largest walk taken at once; its sizes always fit in `OutputSize`.
pub const MAX_ENTRIES: u64 = 0x40_0000_0000_0000;

/// An upper bound of any one entry's own size.
pub const MAX_OWN_SIZE: u128 = 0x200_0000_0000_0000_0000;

/// The identifiers claimed once the first `j` entries have been visited,
/// starting from `initial`.
pub open spec fn claimed_before(entries: Seq<Entry>, initial: Set<u64>, j: int) -> Set<u64>
    decreases j,
{
    if j <= 0 {
        initial
    } else {
        let prev = claimed_before(entries, initial, j - 1);
        match entries[j - 1].meta {
            Ok(m) => prev.insert(m.inode),
            Err(_) => prev,
        }
    }
}

/// Whether entry `j` is the first to claim its inode, so that its own size
/// counts.
pub open spec fn credited(entries: Seq<Entry>, initial: Set<u64>, j: int) -> bool {
    match entries[j].meta {
        Ok(m) => !claimed_before(entries, initial, j).contains(m.inode),
        Err(_) => false,
    }
}

/// What entry `j` adds to the totals by itself: its own size if it is
/// credited, else nothing.
pub open spec fn contribution(
    entries: Seq<Entry>,
    reader: crate::config::SizeReader,
    initial: Set<u64>,
    j: int,
) -> nat {
    match entries[j].meta {
        Ok(m) => if credited(entries, initial, j) {
            read_size(reader, m)
        } else {
            0
        },
        Err(_) => 0,
    }
}

/// The sum of the contributions of the first `j` entries.
pub open spec fn prefix_total(
    entries: Seq<Entry>,
    reader: crate::config::SizeReader,
    initial: Set<u64>,
    j: int,
) -> nat
    decreases j,
{
    if j <= 0 {
        0
    } else {
        prefix_total(entries, reader, initial, j - 1) + contribution(entries, reader, initial, j - 1)
    }
}

/// The sum of the contributions of entries `a` up to, not including, `b`.
pub open spec fn range_total(
    entries: Seq<Entry>,
    reader: crate::config::SizeReader,
    initial: Set<u64>,
    a: int,
    b: int,
) -> int {
    prefix_total(entries, reader, initial, b) - prefix_total(entries, reader, initial, a)
}

/// The first index from `j` on whose entry is not below entry `i`.
pub open spec fn end_from(entries: Seq<Entry>, i: int, j: int) -> int
    decreases entries.len() - j,
{
    if j >= entries.len() {
        entries.len() as int
    } else if entries[j].depth <= entries[i].depth {
        j
    } else {
        end_from(entries, i, j + 1)
    }
}

/// The index just past the entries below entry `i`.
pub open spec fn subtree_end(entries: Seq<Entry>, i: int) -> int {
    end_from(entries, i, i + 1)
}

/// Whether the entry's metadata was read and shows a directory.
pub open spec fn is_dir_entry(e: Entry) -> bool {
    match e.meta {
        Ok(m) => m.is_dir,
        Err(_) => false,
    }
}

/// The size reported for entry `i`: for a directory, the contributions of
/// itself and everything below it; for any other entry, its own.
pub open spec fn entry_total(
    entries: Seq<Entry>,
    reader: crate::config::SizeReader,
    initial: Set<u64>,
    i: int,
) -> int {
    if is_dir_entry(entries[i]) {
        range_total(entries, reader, initial, i, subtree_end(entries, i))
    } else {
        contribution(entries, reader, initial, i) as int
    }
}


/// The line printed for a size, a path and a terminator.
pub open spec fn line_text(config: Config, size: nat, path: Seq<char>, term: char) -> Seq<char> {
    size_text(config, size).push('\t') + path.push(term)
}

/// Whether `config` prints a line for entry `e`: a directory, or with
/// `display_files` any entry, whose metadata was read and that lies no
/// deeper than `max_depth`.
pub open spec fn printed(config: Config, e: Entry) -> bool {
    match e.meta {
        Ok(m) => e.depth <= config.max_depth && (m.is_dir || config.display_files),
        Err(_) => false,
    }
}

/// The lines printed for the first `n` entries, in visiting order.
pub open spec fn lines_upto(
    entries: Seq<Entry>,
    config: Config,
    term: char,
    initial: Set<u64>,
    n: int,
) -> Seq<Seq<char>>
    decreases n,
{
    if n <= 0 {
        seq![]
    } else {
        let prev = lines_upto(entries, config, term, initial, n - 1);
        let e = entries[n - 1];
        if printed(config, e) {
            let size = entry_total(entries, config.size_reader, initial, n - 1);
            prev.push(line_text(config, size as nat, e.path@, term))
        } else {
            prev
        }
    }
}

/// The diagnostic for an entry whose metadata could not be read.
pub open spec fn fault_text(description: Seq<char>, path: Seq<char>) -> Seq<char> {
    description + " at "@ + path
}

/// The diagnostics for the first `n` entries, in visiting order.
pub open spec fn faults_upto(entries: Seq<Entry>, n: int) -> Seq<Seq<char>>
    decreases n,
{
    if n <= 0 {
        seq![]
    } else {
        let prev = faults_upto(entries, n - 1);
        match entries[n - 1].meta {
            Ok(_) => prev,
            Err(d) => prev.push(fault_text(d@, entries[n - 1].path@)),
        }
    }
}

proof fn lemma_contribution_bound(
    entries: Seq<Entry>,
    reader: crate::config::SizeReader,
    initial: Set<u64>,
    j: int,
)
    requires
        0 <= j < entries.len(),
    ensures
        contribution(entries, reader, initial, j) <= MAX_OWN_SIZE,
{
}

/// Every index from `j` to `end_from(i, j)` is below entry `i`.
proof fn lemma_end_from(entries: Seq<Entry>, i: int, j: int)
    requires
        0 <= i < j <= entries.len(),
    ensures
        j <= end_from(entries, i, j) <= entries.len(),
        forall|k: int| j <= k < end_from(entries, i, j) ==> entries[k].depth > entries[i].depth,
    decreases entries.len() - j,
{
    if j < entries.len() && entries[j].depth > entries[i].depth {
        lemma_end_from(entries, i, j + 1);
    }
}

/// Skipping entries that all lie below entry `i` does not move its end.
proof fn lemma_end_skip(entries: Seq<Entry>, i: int, j: int, m: int)
    requires
        0 <= i < j <= m <= entries.len(),
        forall|k: int| j <= k < m ==> entries[k].depth > entries[i].depth,
    ensures
        end_from(entries, i, j) == end_from(entries, i, m),
    decreases m - j,
{
    if j < m {
        lemma_end_skip(entries, i, j + 1, m);
    }
}

/// Claims every entry's inode in visiting order and returns the running
/// totals of the contributions: `r[k]` sums the first `k` entries.
fn claim_all(entries: &Vec<Entry>, config: &Config, record: &mut ShardedSet) -> (r: Vec<OutputSize>)
    requires
        old(record).wf(),
        entries@.len() <= MAX_ENTRIES,
    ensures
        final(record).wf(),
        final(record)@ == claimed_before(entries@, old(record)@, entries@.len() as int),
        r@.len() == entries@.len() + 1,
        forall|k: int|
            0 <= k <= entries@.len() ==> #[trigger] r@[k] == prefix_total(
                entries@,
                config.size_reader,
                old(record)@,
                k,
            ),
{
    let ghost initial = record@;
    let ghost reader = config.size_reader;
    let n = entries.len();
    let mut pre: Vec<OutputSize> = Vec::new();
    pre.push(0);
    let mut j: usize = 0;
    while j < n
        invariant
            n == entries@.len(),
            n <= MAX_ENTRIES,
            j <= n,
            reader == config.size_reader,
            record.wf(),
            record@ == claimed_before(entries@, initial, j as int),
            pre@.len() == j + 1,
            forall|k: int|
                0 <= k <= j ==> #[trigger] pre@[k] == prefix_total(entries@, reader, initial, k),
            prefix_total(entries@, reader, initial, j as int) <= j * MAX_OWN_SIZE,
        decreases n - j,
    {
        let c: OutputSize = match &entries[j].meta {
            Ok(m) => {
                if record.insert(m.inode) {
                    config.size_reader.read(m)
                } else {
                    0
                }
            },
            Err(_) => 0,
        };
        proof {
            lemma_contribution_bound(entries@, reader, initial, j as int);
            assert(c == contribution(entries@, reader, initial, j as int));
            assert((j + 1) * MAX_OWN_SIZE <= u128::MAX) by (nonlinear_arith)
                requires
                    j < n,
                    n <= MAX_ENTRIES,
            ;
            assert(j * MAX_OWN_SIZE + MAX_OWN_SIZE == (j + 1) * MAX_OWN_SIZE) by (nonlinear_arith);
        }
        let last = pre[j];
        pre.push(last + c);
        j = j + 1;
    }
    pre
}

/// For every entry, the index just past the entries below it.
fn subtree_ends(entries: &Vec<Entry>) -> (r: Vec<usize>)
    ensures
        r@.len() == entries@.len(),
        forall|k: int|
            0 <= k < entries@.len() ==> #[trigger] r@[k] == subtree_end(entries@, k),
{
    let n = entries.len();
    let mut ends: Vec<usize> = Vec::new();
    let mut k: usize = 0;
    while k < n
        invariant
            n == entries@.len(),
            k <= n,
            ends@.len() == k,
        decreases n - k,
    {
        ends.push(n);
        k = k + 1;
    }
    let mut i: usize = n;
    while i > 0
        invariant
            n == entries@.len(),
            i <= n,
            ends@.len() == n,
            forall|k: int| i <= k < n ==> #[trigger] ends@[k] == subtree_end(entries@, k),
        decreases i,
    {
        i = i - 1;
        let mut j: usize = i + 1;
        proof {
            lemma_end_from(entries@, i as int, j as int);
        }
        while j < n && entries[j].depth > entries[i].depth
            invariant
                n == entries@.len(),
                i < j <= n,
                end_from(entries@, i as int, j as int) == subtree_end(entries@, i as int),
                j <= subtree_end(entries@, i as int),
                ends@.len() == n,
                forall|k: int| i < k < n ==> #[trigger] ends@[k] == subtree_end(entries@, k),
            decreases n - j,
        {
            proof {
                let e = subtree_end(entries@, j as int);
                lemma_end_from(entries@, j as int, j + 1);
                lemma_end_skip(entries@, i as int, j + 1, e);
                lemma_end_from(entries@, i as int, e);
            }
            j = ends[j];
        }
        proof {
            lemma_end_from(entries@, i as int, i + 1);
        }
        ends.set(i, j);
    }
    ends
}


proof fn lemma_prefix_mono(
    entries: Seq<Entry>,
    reader: crate::config::SizeReader,
    initial: Set<u64>,
    a: int,
    b: int,
)
    requires
        0 <= a <= b,
    ensures
        prefix_total(entries, reader, initial, a) <= prefix_total(entries, reader, initial, b),
    decreases b - a,
{
    if a < b {
        lemma_prefix_mono(entries, reader, initial, a, b - 1);
    }
}

/// The printed line for an entry of `size` reached by `path`.
fn render_line(config: &Config, size: OutputSize, path: &PathBuf, term: char) -> (r: String)
    requires
        config.wf(),
    ensures
        r@ == line_text(*config, size as nat, path@, term),
{
    let mut line = config.convert_size(size);
    push_char(&mut line, '\t');
    line.append(path.to_str().unwrap());
    push_char(&mut line, term);
    assert(line@ =~= line_text(*config, size as nat, path@, term));
    line
}

/// The diagnostic for an entry reached by `path` whose metadata could not be
/// read for the reason `description`.
fn render_fault(description: &String, path: &PathBuf) -> (r: String)
    ensures
        r@ == fault_text(description@, path@),
{
    let mut line = description.clone();
    line.append(" at ");
    line.append(path.to_str().unwrap());
    assert(line@ =~= fault_text(description@, path@));
    line
}

/// Walks the entries of one or more roots in visiting order, sharing
/// `record` between them.
///
/// Each entry's inode is claimed in turn; only the entry that claims an
/// inode first counts its own size, so a physical object reached through
/// several hard links adds its size once. An entry whose metadata could not
/// be read adds nothing and yields a diagnostic. The total of a directory
/// covers itself and every entry below it; it and, with `display_files`,
/// every other entry no deeper than `max_depth` gets a line.
pub fn execute(
    entries: &Vec<Entry>,
    config: &Config,
    terminating_char: char,
    record: &mut ShardedSet,
) -> (r: Report)
    requires
        old(record).wf(),
        config.wf(),
        entries@.len() <= MAX_ENTRIES,
    ensures
        final(record).wf(),
        final(record)@ == claimed_before(entries@, old(record)@, entries@.len() as int),
        r.total == prefix_total(entries@, config.size_reader, old(record)@, entries@.len() as int),
        r.lines.deep_view() == lines_upto(
            entries@,
            *config,
            terminating_char,
            old(record)@,
            entries@.len() as int,
        ),
        r.faults.deep_view() == faults_upto(entries@, entries@.len() as int),
{
    let ghost initial = record@;
    let ghost reader = config.size_reader;
    let pre = claim_all(entries, config, record);
    let ends = subtree_ends(entries);
    let n = entries.len();
    let mut lines: Vec<String> = Vec::new();
    let mut faults: Vec<String> = Vec::new();
    let mut i: usize = 0;
    while i < n
        invariant
            n == entries@.len(),
            i <= n,
            config.wf(),
            reader == config.size_reader,
            pre@.len() == n + 1,
            forall|k: int|
                0 <= k <= n ==> #[trigger] pre@[k] == prefix_total(entries@, reader, initial, k),
            ends@.len() == n,
            forall|k: int| 0 <= k < n ==> #[trigger] ends@[k] == subtree_end(entries@, k),
            lines.deep_view() == lines_upto(entries@, *config, terminating_char, initial, i as int),
            faults.deep_view() == faults_upto(entries@, i as int),
        decreases n - i,
    {
        let e = &entries[i];
        let ghost before = lines.deep_view();
        let ghost faults_before = faults.deep_view();
        match &e.meta {
            Ok(m) => {
                if e.depth <= config.max_depth && (m.is_dir || config.display_files) {
                    let end = if m.is_dir {
                        ends[i]
                    } else {
                        i + 1
                    };
                    proof {
                        lemma_end_from(entries@, i as int, i + 1);
                        lemma_prefix_mono(entries@, reader, initial, i as int, end as int);
                    }
                    let size = pre[end] - pre[i];
                    assert(size == entry_total(entries@, reader, initial, i as int));
                    lines.push(render_line(config, size, &e.path, terminating_char));
                    assert(lines.deep_view() =~= before.push(
                        line_text(*config, size as nat, e.path@, terminating_char),
                    ));
                }
            },
            Err(d) => {
                faults.push(render_fault(d, &e.path));
                assert(faults.deep_view() =~= faults_before.push(fault_text(d@, e.path@)));
            },
        }
        i = i + 1;
    }
    Report { total: pre[n], lines, faults }
}


/// Whether entry `e` was read and carries inode `v`.
pub open spec fn carries(e: Entry, v: u64) -> bool {
    match e.meta {
        Ok(m) => m.inode == v,
        Err(_) => false,
    }
}

/// Whether some entry of `entries` carries inode `v`.
pub open spec fn reaches(entries: Seq<Entry>, v: u64) -> bool {
    exists|k: int| 0 <= k < entries.len() && #[trigger] carries(entries[k], v)
}

/// The grand total of a walk that starts from the claims `initial`.
pub open spec fn walk_total(entries: Seq<Entry>, reader: crate::config::SizeReader, initial: Set<u64>) -> nat {
    prefix_total(entries, reader, initial, entries.len() as int)
}

/// An identifier is claimed before entry `j` exactly when it was claimed at
/// the start or an earlier entry carries it.
proof fn lemma_claimed_origin(entries: Seq<Entry>, initial: Set<u64>, j: int, v: u64)
    requires
        0 <= j <= entries.len(),
    ensures
        claimed_before(entries, initial, j).contains(v) <==> (initial.contains(v) || exists|k: int|
            0 <= k < j && #[trigger] carries(entries[k], v)),
    decreases j,
{
    if j > 0 {
        lemma_claimed_origin(entries, initial, j - 1, v);
        if claimed_before(entries, initial, j).contains(v) && !initial.contains(v)
            && !claimed_before(entries, initial, j - 1).contains(v) {
            assert(carries(entries[j - 1], v));
        }
    }
}

/// Each physical object is counted exactly once: no two credited entries
/// carry the same inode; an inode that some entry carries and that was not
/// claimed before the walk is credited to one of them; and an inode claimed
/// before the walk is credited to none.
pub proof fn lemma_counted_once(entries: Seq<Entry>, initial: Set<u64>, v: u64)
    ensures
        forall|a: int, b: int|
            0 <= a < b < entries.len() && credited(entries, initial, a) && credited(entries, initial, b)
                && carries(entries[a], v) ==> !carries(entries[b], v),
        !initial.contains(v) && reaches(entries, v) ==> exists|j: int|
            0 <= j < entries.len() && credited(entries, initial, j) && #[trigger] carries(entries[j], v),
        initial.contains(v) ==> forall|j: int|
            0 <= j < entries.len() && #[trigger] carries(entries[j], v) ==> !credited(entries, initial, j),
{
    assert forall|a: int, b: int|
        0 <= a < b < entries.len() && credited(entries, initial, a) && credited(entries, initial, b)
            && carries(entries[a], v) implies !carries(entries[b], v) by {
        lemma_claimed_origin(entries, initial, b, v);
    }
    if !initial.contains(v) && reaches(entries, v) {
        let k = choose|k: int| 0 <= k < entries.len() && #[trigger] carries(entries[k], v);
        lemma_first_carrier(entries, initial, v, k);
    }
    assert forall|j: int|
        0 <= j < entries.len() && initial.contains(v) && #[trigger] carries(entries[j], v) implies !credited(
        entries,
        initial,
        j,
    ) by {
        lemma_claimed_origin(entries, initial, j, v);
    }
}

proof fn lemma_first_carrier(entries: Seq<Entry>, initial: Set<u64>, v: u64, k: int)
    requires
        0 <= k < entries.len(),
        carries(entries[k], v),
        !initial.contains(v),
    ensures
        exists|j: int| 0 <= j <= k && credited(entries, initial, j) && #[trigger] carries(entries[j], v),
    decreases k,
{
    lemma_claimed_origin(entries, initial, k, v);
    if claimed_before(entries, initial, k).contains(v) {
        let k1 = choose|k1: int| 0 <= k1 < k && #[trigger] carries(entries[k1], v);
        lemma_first_carrier(entries, initial, v, k1);
    } else {
        assert(credited(entries, initial, k));
    }
}

/// Visiting `a` and then `b` claims, before each entry of `b`, what `a`
/// left claimed and what `b` claimed before it.
proof fn lemma_claimed_concat(a: Seq<Entry>, b: Seq<Entry>, initial: Set<u64>, j: int)
    requires
        0 <= j <= a.len() + b.len(),
    ensures
        j <= a.len() ==> claimed_before(a + b, initial, j) == claimed_before(a, initial, j),
        j >= a.len() ==> claimed_before(a + b, initial, j) == claimed_before(
            b,
            claimed_before(a, initial, a.len() as int),
            j - a.len(),
        ),
    decreases j,
{
    if j > 0 {
        lemma_claimed_concat(a, b, initial, j - 1);
    }
}

/// The total of `a` followed by `b` splits into the total of `a` and that of
/// `b` walked after `a`'s claims.
proof fn lemma_prefix_concat(
    a: Seq<Entry>,
    b: Seq<Entry>,
    reader: crate::config::SizeReader,
    initial: Set<u64>,
    j: int,
)
    requires
        0 <= j <= a.len() + b.len(),
    ensures
        j <= a.len() ==> prefix_total(a + b, reader, initial, j) == prefix_total(a, reader, initial, j),
        j >= a.len() ==> prefix_total(a + b, reader, initial, j) == walk_total(a, reader, initial)
            + prefix_total(b, reader, claimed_before(a, initial, a.len() as int), j - a.len()),
    decreases j,
{
    if j > 0 {
        lemma_prefix_concat(a, b, reader, initial, j - 1);
        lemma_claimed_concat(a, b, initial, j - 1);
    }
}

/// Walking `b` after claims that hold no inode of `b` beyond `initial`
/// gives the same total as walking it from `initial`.
proof fn lemma_prefix_unrelated_claims(
    b: Seq<Entry>,
    reader: crate::config::SizeReader,
    initial: Set<u64>,
    extra: Set<u64>,
    j: int,
)
    requires
        0 <= j <= b.len(),
        forall|v: u64| #[trigger] extra.contains(v) && reaches(b, v) ==> initial.contains(v),
        initial.subset_of(extra),
    ensures
        prefix_total(b, reader, extra, j) == prefix_total(b, reader, initial, j),
    decreases j,
{
    if j > 0 {
        lemma_prefix_unrelated_claims(b, reader, initial, extra, j - 1);
        match b[j - 1].meta {
            Ok(m) => {
                let v = m.inode;
                assert(carries(b[j - 1], v));
                assert(reaches(b, v));
                lemma_claimed_origin(b, extra, j - 1, v);
                lemma_claimed_origin(b, initial, j - 1, v);
            },
            Err(_) => {},
        }
    }
}

/// Two walks that reach no common inode add up: walking `a` then `b` with
/// one shared set of claims totals what walking each from `initial` does.
pub proof fn lemma_disjoint_walks_add(
    a: Seq<Entry>,
    b: Seq<Entry>,
    reader: crate::config::SizeReader,
    initial: Set<u64>,
)
    requires
        forall|v: u64| reaches(a, v) ==> !reaches(b, v),
    ensures
        walk_total(a + b, reader, initial) == walk_total(a, reader, initial) + walk_total(b, reader, initial),
{
    let c = claimed_before(a, initial, a.len() as int);
    lemma_prefix_concat(a, b, reader, initial, (a.len() + b.len()) as int);
    assert((a + b).len() == a.len() + b.len());
    assert forall|v: u64| #[trigger] c.contains(v) && reaches(b, v) implies initial.contains(v) by {
        lemma_claimed_origin(a, initial, a.len() as int, v);
        if !initial.contains(v) {
            let k = choose|k: int| 0 <= k < a.len() && #[trigger] carries(a[k], v);
            assert(reaches(a, v));
        }
    }
    assert forall|v: u64| initial.contains(v) implies #[trigger] c.contains(v) by {
        lemma_claimed_origin(a, initial, a.len() as int, v);
    }
    lemma_prefix_unrelated_claims(b, reader, initial, c, b.len() as int);
}


/// The sum of the totals of each root's walk, each started from `initial`.
pub open spec fn roots_total(
    roots: Seq<Seq<Entry>>,
    reader: crate::config::SizeReader,
    initial: Set<u64>,
) -> nat
    decreases roots.len(),
{
    if roots.len() == 0 {
        0
    } else {
        walk_total(roots.first(), reader, initial) + roots_total(roots.drop_first(), reader, initial)
    }
}

proof fn lemma_reaches_flatten(roots: Seq<Seq<Entry>>, v: u64)
    ensures
        reaches(roots.flatten(), v) ==> exists|r: int| 0 <= r < roots.len() && #[trigger] reaches(roots[r], v),
    decreases roots.len(),
{
    if roots.len() > 0 && reaches(roots.flatten(), v) {
        let first = roots.first();
        let rest = roots.drop_first();
        let k = choose|k: int| 0 <= k < roots.flatten().len() && #[trigger] carries(roots.flatten()[k], v);
        assert(roots.flatten() == first + rest.flatten());
        if k < first.len() {
            assert(carries(first[k], v));
            assert(reaches(roots[0], v));
        } else {
            assert(carries(rest.flatten()[k - first.len()], v));
            lemma_reaches_flatten(rest, v);
            let r = choose|r: int| 0 <= r < rest.len() && #[trigger] reaches(rest[r], v);
            assert(rest[r] == roots[r + 1]);
        }
    }
}

/// Several roots walked one after another with one shared set of claims
/// total the sum of their totals, each walked from `initial` on its own,
/// when no inode is reached from two of them.
pub proof fn lemma_roots_total(
    roots: Seq<Seq<Entry>>,
    reader: crate::config::SizeReader,
    initial: Set<u64>,
)
    requires
        forall|r1: int, r2: int, v: u64|
            0 <= r1 < roots.len() && 0 <= r2 < roots.len() && r1 != r2 && #[trigger] reaches(roots[r1], v)
                ==> !#[trigger] reaches(roots[r2], v),
    ensures
        walk_total(roots.flatten(), reader, initial) == roots_total(roots, reader, initial),
    decreases roots.len(),
{
    if roots.len() > 0 {
        let first = roots.first();
        let rest = roots.drop_first();
        assert forall|r1: int, r2: int, v: u64|
            0 <= r1 < rest.len() && 0 <= r2 < rest.len() && r1 != r2 && #[trigger] reaches(rest[r1], v)
                implies !#[trigger] reaches(rest[r2], v) by {
            assert(rest[r1] == roots[r1 + 1]);
            assert(rest[r2] == roots[r2 + 1]);
        }
        lemma_roots_total(rest, reader, initial);
        assert forall|v: u64| reaches(first, v) implies !reaches(rest.flatten(), v) by {
            lemma_reaches_flatten(rest, v);
            if reaches(rest.flatten(), v) {
                let r = choose|r: int| 0 <= r < rest.len() && #[trigger] reaches(rest[r], v);
                assert(rest[r] == roots[r + 1]);
                assert(reaches(roots[0], v));
            }
        }
        lemma_disjoint_walks_add(first, rest.flatten(), reader, initial);
        assert(roots.flatten() == first + rest.flatten());
    }
}


/// An entry deeper than `max_depth` adds no line, while what it adds to the
/// totals is untouched: `walk_total` and `entry_total` read the size reader
/// alone, never the depth limit. With a limit of 0 only roots print.
pub proof fn lemma_depth_gating(entries: Seq<Entry>, config: Config, term: char, initial: Set<u64>, i: int)
    requires
        0 <= i < entries.len(),
        entries[i].depth > config.max_depth,
    ensures
        lines_upto(entries, config, term, initial, i + 1) == lines_upto(entries, config, term, initial, i),
        !printed(config, entries[i]),
{
}

/// An entry read as something other than a directory (a symbolic link read
/// without following it, say) reports its own size alone, whatever entries
/// follow it.
pub proof fn lemma_leaf_own_size(
    entries: Seq<Entry>,
    reader: crate::config::SizeReader,
    initial: Set<u64>,
    i: int,
)
    requires
        0 <= i < entries.len(),
        entries[i].meta is Ok,
        !entries[i].meta->Ok_0.is_dir,
    ensures
        entry_total(entries, reader, initial, i) == if credited(entries, initial, i) {
            read_size(reader, entries[i].meta->Ok_0) as int
        } else {
            0
        },
{
}

} // verus!
