//! Per-process records: merging the processes that share a name, and ordering
//! the merged table by CPU or by memory.
use vstd::prelude::*;
use itertools::Itertools;
use std::cmp::Ordering;

verus! {

broadcast use vstd::seq_lib::group_to_multiset_ensures;

/// One process, or all processes of one name merged.
pub struct ProcessInfo {
    /// The platform's name of the process, as bytes; not necessarily text.
    pub name: Vec<u8>,
    /// CPU use in hundredths of a percent of one logical CPU.
    pub cpu: u32,
    /// Resident memory in bytes.
    pub mem: u64,
    /// A representative process id.
    pub pid: u32,
}

/// What a process record holds, as plain values.
pub struct ProcessView {
    pub name: Seq<u8>,
    pub cpu: u32,
    pub mem: u64,
    pub pid: u32,
}

impl View for ProcessInfo {
    type V = ProcessView;

    open spec fn view(&self) -> ProcessView {
        ProcessView { name: self.name@, cpu: self.cpu, mem: self.mem, pid: self.pid }
    }
}

/// The key that a process table is ordered by, largest first.
#[derive(Clone, Copy, Debug, PartialEq, Eq, Structural, Default)]
pub enum ProcessBy {
    #[default]
    Cpu,
    Ram,
}

/// The sort key of a record.
pub open spec fn key(by: ProcessBy, p: ProcessView) -> int {
    match by {
        ProcessBy::Cpu => p.cpu as int,
        ProcessBy::Ram => p.mem as int,
    }
}

impl ProcessBy {
    /// Orders records by the key, largest first: `Less` when `a`'s key is the larger.
    pub fn compare(self, a: &ProcessInfo, b: &ProcessInfo) -> (r: Ordering)
        ensures
            key(self, a@) > key(self, b@) <==> r == Ordering::Less,
            key(self, a@) == key(self, b@) <==> r == Ordering::Equal,
            key(self, a@) < key(self, b@) <==> r == Ordering::Greater,
    {
        let (x, y): (u64, u64) = match self {
            ProcessBy::Cpu => (a.cpu as u64, b.cpu as u64),
            ProcessBy::Ram => (a.mem, b.mem),
        };
        if x > y {
            Ordering::Less
        } else if x == y {
            Ordering::Equal
        } else {
            Ordering::Greater
        }
    }
}

/// The views of a sequence of records.
pub open spec fn views(s: Seq<ProcessInfo>) -> Seq<ProcessView> {
    s.map_values(|p: ProcessInfo| p@)
}

/// Index of the first record named `name` in `s`; `s.len()` when there is none.
pub open spec fn first_index(s: Seq<ProcessView>, name: Seq<u8>) -> int
    decreases s.len(),
{
    if s.len() == 0 {
        0
    } else {
        let f = first_index(s.drop_last(), name);
        if f < s.len() - 1 {
            f
        } else if s.last().name == name {
            s.len() - 1
        } else {
            s.len() as int
        }
    }
}

/// The largest CPU use among the records named `name` (0 when none).
pub open spec fn max_cpu(s: Seq<ProcessView>, name: Seq<u8>) -> u32
    decreases s.len(),
{
    if s.len() == 0 {
        0
    } else {
        let m = max_cpu(s.drop_last(), name);
        if s.last().name == name && s.last().cpu > m {
            s.last().cpu
        } else {
            m
        }
    }
}

/// The largest memory use among the records named `name` (0 when none).
pub open spec fn max_mem(s: Seq<ProcessView>, name: Seq<u8>) -> u64
    decreases s.len(),
{
    if s.len() == 0 {
        0
    } else {
        let m = max_mem(s.drop_last(), name);
        if s.last().name == name && s.last().mem > m {
            s.last().mem
        } else {
            m
        }
    }
}

/// The merged record of name `name`: per-field maxima over the processes of
/// that name, and the id of the first of them.
pub open spec fn merged_record(raw: Seq<ProcessView>, name: Seq<u8>) -> ProcessView {
    ProcessView {
        name,
        cpu: max_cpu(raw, name),
        mem: max_mem(raw, name),
        pid: raw[first_index(raw, name)].pid,
    }
}

/// `r` holds one merged record for each name of `raw`, and nothing else.
pub open spec fn merges(raw: Seq<ProcessView>, r: Seq<ProcessView>) -> bool {
    &&& forall|i: int|
        0 <= i < r.len() ==> first_index(raw, #[trigger] r[i].name) < raw.len() && r[i]
            == merged_record(raw, r[i].name)
    &&& forall|t: int| 0 <= t < raw.len() ==> first_index(r, #[trigger] raw[t].name) < r.len()
}

/// `r` lists its records in the order their names first occur in `raw`.
pub open spec fn in_first_seen_order(raw: Seq<ProcessView>, r: Seq<ProcessView>) -> bool {
    forall|i: int, j: int|
        0 <= i < j < r.len() ==> first_index(raw, #[trigger] r[i].name) < first_index(raw, #[trigger] r[j].name)
}

/// `r` is ordered by the key, largest first; equal keys keep the order in
/// which their names first occur in `raw`.
pub open spec fn in_table_order(raw: Seq<ProcessView>, r: Seq<ProcessView>, by: ProcessBy) -> bool {
    forall|i: int, j: int|
        0 <= i < j < r.len() ==> key(by, #[trigger] r[i]) > key(by, #[trigger] r[j]) || (key(by, r[i]) == key(
            by,
            r[j],
        ) && first_index(raw, r[i].name) < first_index(raw, r[j].name))
}

proof fn lemma_absent(s: Seq<ProcessView>, name: Seq<u8>)
    requires
        forall|t: int| 0 <= t < s.len() ==> s[t].name != name,
    ensures
        first_index(s, name) == s.len(),
        max_cpu(s, name) == 0,
        max_mem(s, name) == 0,
    decreases s.len(),
{
    if s.len() > 0 {
        lemma_absent(s.drop_last(), name);
    }
}

proof fn lemma_first_index_bound(s: Seq<ProcessView>, name: Seq<u8>, t: int)
    requires
        0 <= t < s.len(),
        s[t].name == name,
    ensures
        first_index(s, name) <= t,
        s[first_index(s, name)].name == name,
    decreases s.len(),
{
    if t < s.len() - 1 {
        lemma_first_index_bound(s.drop_last(), name, t);
    }
    lemma_first_index_found(s, name);
}

proof fn lemma_first_index_found(s: Seq<ProcessView>, name: Seq<u8>)
    requires
        first_index(s, name) < s.len(),
    ensures
        0 <= first_index(s, name),
        s[first_index(s, name)].name == name,
    decreases s.len(),
{
    if s.len() > 0 {
        let p = s.drop_last();
        if first_index(p, name) < p.len() {
            lemma_first_index_found(p, name);
            assert(p[first_index(p, name)] == s[first_index(p, name)]);
        }
    }
}

/// `a@ == b@` for two names.
fn same_name(a: &Vec<u8>, b: &Vec<u8>) -> (r: bool)
    ensures
        r == (a@ == b@),
{
    if a.len() != b.len() {
        return false;
    }
    let mut i: usize = 0;
    while i < a.len()
        invariant
            a@.len() == b@.len(),
            i <= a@.len(),
            forall|k: int| 0 <= k < i ==> a@[k] == b@[k],
        decreases a@.len() - i,
    {
        if a[i] != b[i] {
            return false;
        }
        i += 1;
    }
    assert(a@ =~= b@);
    true
}

/// Index of the record named `name` in `r`, if there is one.
fn find_name(r: &Vec<ProcessInfo>, name: &Vec<u8>) -> (found: Option<usize>)
    ensures
        found matches Some(j) ==> j < r@.len() && r@[j as int].name@ == name@,
        found is None ==> forall|j: int| 0 <= j < r@.len() ==> r@[j].name@ != name@,
{
    let mut j: usize = 0;
    while j < r.len()
        invariant
            j <= r@.len(),
            forall|k: int| 0 <= k < j ==> r@[k].name@ != name@,
        decreases r@.len() - j,
    {
        if same_name(&r[j].name, name) {
            return Some(j);
        }
        j += 1;
    }
    None
}


/// Records of `r` have pairwise different names when they are in first-seen order.
proof fn lemma_distinct_names(raw: Seq<ProcessView>, r: Seq<ProcessView>, i: int, j: int)
    requires
        in_first_seen_order(raw, r),
        0 <= i < r.len(),
        0 <= j < r.len(),
        i != j,
    ensures
        r[i].name != r[j].name,
{
    if i < j {
        assert(first_index(raw, r[i].name) < first_index(raw, r[j].name));
    } else {
        assert(first_index(raw, r[j].name) < first_index(raw, r[i].name));
    }
}

/// Adding a record of another name leaves a merged record as it was.
proof fn lemma_other_name(s: Seq<ProcessView>, p: ProcessView, name: Seq<u8>)
    requires
        first_index(s, name) < s.len(),
        p.name != name,
    ensures
        first_index(s.push(p), name) == first_index(s, name),
        merged_record(s.push(p), name) == merged_record(s, name),
{
    let s2 = s.push(p);
    assert(s2.drop_last() =~= s);
    lemma_first_index_found(s, name);
    assert(s2[first_index(s, name)] == s[first_index(s, name)]);
}

/// Adding a record of a name already present merges it by maxima.
proof fn lemma_same_name(s: Seq<ProcessView>, p: ProcessView)
    requires
        first_index(s, p.name) < s.len(),
    ensures
        first_index(s.push(p), p.name) == first_index(s, p.name),
        merged_record(s.push(p), p.name) == (ProcessView {
            name: p.name,
            cpu: if p.cpu > max_cpu(s, p.name) { p.cpu } else { max_cpu(s, p.name) },
            mem: if p.mem > max_mem(s, p.name) { p.mem } else { max_mem(s, p.name) },
            pid: merged_record(s, p.name).pid,
        }),
{
    let s2 = s.push(p);
    assert(s2.drop_last() =~= s);
    lemma_first_index_found(s, p.name);
    assert(s2[first_index(s, p.name)] == s[first_index(s, p.name)]);
}

/// Adding a record of a new name gives that record itself.
proof fn lemma_new_name(s: Seq<ProcessView>, p: ProcessView)
    requires
        forall|t: int| 0 <= t < s.len() ==> s[t].name != p.name,
    ensures
        first_index(s.push(p), p.name) == s.len(),
        merged_record(s.push(p), p.name) == p,
{
    let s2 = s.push(p);
    assert(s2.drop_last() =~= s);
    lemma_absent(s, p.name);
}

/// Merges the processes that share a name into one record each: CPU and
/// memory are the largest of that name's processes (not their sum), the id is
/// that of the first process of the name. Records come in the order their
/// names first occur.
pub fn merge_processes(raw: &Vec<ProcessInfo>) -> (r: Vec<ProcessInfo>)
    ensures
        merges(views(raw@), views(r@)),
        in_first_seen_order(views(raw@), views(r@)),
{
    let ghost rv = views(raw@);
    let mut r: Vec<ProcessInfo> = Vec::new();
    let ghost mut slot: Seq<int> = Seq::empty();
    let mut k: usize = 0;
    while k < raw.len()
        invariant
            k <= raw@.len(),
            rv == views(raw@),
            slot.len() == k,
            forall|t: int|
                0 <= t < k ==> 0 <= #[trigger] slot[t] < r@.len() && r@[slot[t]].name@ == rv[t].name,
            forall|i: int|
                0 <= i < r@.len() ==> first_index(rv.take(k as int), #[trigger] views(r@)[i].name) < k
                    && views(r@)[i] == merged_record(rv.take(k as int), views(r@)[i].name),
            in_first_seen_order(rv.take(k as int), views(r@)),
        decreases raw@.len() - k,
    {
        let ghost s = rv.take(k as int);
        let ghost old_r = views(r@);
        let ghost p = rv[k as int];
        assert(rv.take(k + 1) =~= s.push(p));
        let found = find_name(&r, &raw[k].name);
        match found {
            Some(j) => {
                let mut rec = r.remove(j);
                if raw[k].cpu > rec.cpu {
                    rec.cpu = raw[k].cpu;
                }
                if raw[k].mem > rec.mem {
                    rec.mem = raw[k].mem;
                }
                r.insert(j, rec);
                proof {
                    assert(views(r@) =~= old_r.update(j as int, rec@));
                    assert(old_r[j as int].name == p.name);
                    lemma_same_name(s, p);
                    assert forall|i: int| 0 <= i < r@.len() && i != j implies first_index(
                        s.push(p),
                        #[trigger] views(r@)[i].name,
                    ) < k + 1 && views(r@)[i] == merged_record(s.push(p), views(r@)[i].name) by {
                        lemma_distinct_names(s, old_r, i, j as int);
                        lemma_other_name(s, p, old_r[i].name);
                    }
                    assert forall|a: int, b: int| 0 <= a < b < r@.len() implies first_index(
                        s.push(p),
                        #[trigger] views(r@)[a].name,
                    ) < first_index(s.push(p), #[trigger] views(r@)[b].name) by {
                        assert(first_index(s, old_r[a].name) < first_index(s, old_r[b].name));
                        if a != j {
                            lemma_distinct_names(s, old_r, a, j as int);
                            lemma_other_name(s, p, old_r[a].name);
                        }
                        if b != j {
                            lemma_distinct_names(s, old_r, b, j as int);
                            lemma_other_name(s, p, old_r[b].name);
                        }
                    }
                    slot = slot.push(j as int);
                }
            },
            None => {
                let name = raw[k].name.clone();
                proof {
                    assert(name@ =~= raw@[k as int].name@);
                }
                r.push(ProcessInfo { name, cpu: raw[k].cpu, mem: raw[k].mem, pid: raw[k].pid });
                proof {
                    assert(views(r@) =~= old_r.push(p));
                    assert forall|t: int| 0 <= t < s.len() implies s[t].name != p.name by {
                        assert(r@[slot[t]].name@ == rv[t].name);
                    }
                    lemma_new_name(s, p);
                    assert forall|i: int| 0 <= i < old_r.len() implies first_index(
                        s.push(p),
                        #[trigger] views(r@)[i].name,
                    ) < k + 1 && views(r@)[i] == merged_record(s.push(p), views(r@)[i].name) by {
                        lemma_other_name(s, p, old_r[i].name);
                    }
                    assert forall|a: int, b: int| 0 <= a < b < r@.len() implies first_index(
                        s.push(p),
                        #[trigger] views(r@)[a].name,
                    ) < first_index(s.push(p), #[trigger] views(r@)[b].name) by {
                        lemma_other_name(s, p, old_r[a].name);
                        if b < old_r.len() {
                            assert(first_index(s, old_r[a].name) < first_index(s, old_r[b].name));
                            lemma_other_name(s, p, old_r[b].name);
                        }
                    }
                    slot = slot.push(old_r.len() as int);
                }
            },
        }
        k += 1;
    }
    proof {
        assert(rv.take(k as int) =~= rv);
        assert forall|t: int| 0 <= t < rv.len() implies first_index(views(r@), #[trigger] rv[t].name)
            < views(r@).len() by {
            lemma_first_index_bound(views(r@), rv[t].name, slot[t]);
        }
    }
    r
}


/// Relies on `Itertools::sorted_by`, which collects the records into a `Vec`
/// and sorts it with the stable `slice::sort_by` under `ProcessBy::compare`:
/// the same records, largest key first, and records of equal key in the order
/// they came in.
#[verifier::external_body]
fn sorted_by_key(records: Vec<ProcessInfo>, by: ProcessBy) -> (r: Vec<ProcessInfo>)
    ensures
        views(r@).to_multiset() == views(records@).to_multiset(),
        forall|i: int, j: int|
            0 <= i < j < r@.len() ==> key(by, #[trigger] views(r@)[i]) >= key(by, #[trigger] views(r@)[j]),
        forall|i: int, j: int|
            0 <= i < j < r@.len() && key(by, #[trigger] views(r@)[i]) == key(by, #[trigger] views(r@)[j])
                ==> exists|p: int, q: int|
                0 <= p < q < records@.len() && views(records@)[p] == views(r@)[i] && views(records@)[q]
                    == views(r@)[j],
{
    records.into_iter().sorted_by(|a, b| by.compare(a, b)).collect()
}

/// The process table: the processes merged by name (see `merge_processes`),
/// ordered by `by`, largest first; equal keys keep the order in which their
/// names first occur in `raw`.
pub fn process_table(raw: &Vec<ProcessInfo>, by: ProcessBy) -> (r: Vec<ProcessInfo>)
    ensures
        merges(views(raw@), views(r@)),
        in_table_order(views(raw@), views(r@), by),
{
    let merged = merge_processes(raw);
    let ghost m = views(merged@);
    let ghost rv = views(raw@);
    let r = sorted_by_key(merged, by);
    proof {
        let v = views(r@);
        assert forall|i: int| 0 <= i < v.len() implies first_index(rv, #[trigger] v[i].name) < rv.len()
            && v[i] == merged_record(rv, v[i].name) by {
            assert(v.contains(v[i]));
            assert(m.to_multiset().count(v[i]) > 0);
            let idx = choose|idx: int| 0 <= idx < m.len() && m[idx] == v[i];
            assert(first_index(rv, m[idx].name) < rv.len());
        }
        assert forall|t: int| 0 <= t < rv.len() implies first_index(v, #[trigger] rv[t].name) < v.len() by {
            let name = rv[t].name;
            assert(first_index(m, name) < m.len());
            lemma_first_index_found(m, name);
            let e = m[first_index(m, name)];
            assert(m.contains(e));
            assert(v.to_multiset().count(e) > 0);
            let i = choose|i: int| 0 <= i < v.len() && v[i] == e;
            lemma_first_index_bound(v, name, i);
        }
        assert forall|i: int, j: int| 0 <= i < j < v.len() implies key(by, #[trigger] v[i]) > key(
            by,
            #[trigger] v[j],
        ) || (key(by, v[i]) == key(by, v[j]) && first_index(rv, v[i].name) < first_index(
            rv,
            v[j].name,
        )) by {
            if key(by, v[i]) == key(by, v[j]) {
                let (p, q) = choose|p: int, q: int|
                    0 <= p < q < m.len() && m[p] == v[i] && m[q] == v[j];
                assert(first_index(rv, m[p].name) < first_index(rv, m[q].name));
            }
        }
    }
    r
}


/// Records of `a` are merged records of `raw`, and their names are those of `b`.
spec fn drawn_from(raw: Seq<ProcessView>, a: Seq<ProcessView>, b: Seq<ProcessView>) -> bool {
    forall|i: int|
        0 <= i < a.len() ==> first_index(raw, #[trigger] a[i].name) < raw.len() && a[i] == merged_record(
            raw,
            a[i].name,
        ) && first_index(b, a[i].name) < b.len()
}

proof fn lemma_same_records(
    raw: Seq<ProcessView>,
    by: ProcessBy,
    a: Seq<ProcessView>,
    b: Seq<ProcessView>,
)
    requires
        drawn_from(raw, a, b),
        drawn_from(raw, b, a),
        in_table_order(raw, a, by),
        in_table_order(raw, b, by),
    ensures
        a == b,
    decreases a.len(),
{
    if a.len() == 0 {
        if b.len() > 0 {
            assert(first_index(a, b[0].name) < a.len());
        }
        assert(a =~= b);
    } else {
        assert(first_index(b, a[0].name) < b.len());
        lemma_first_index_found(b, a[0].name);
        lemma_first_index_found(a, b[0].name);
        let j = first_index(a, b[0].name);
        let k = first_index(b, a[0].name);
        assert(a[j] == b[0]);
        assert(b[k] == a[0]);
        if j > 0 && k > 0 {
            assert(key(by, a[0]) > key(by, a[j]) || (key(by, a[0]) == key(by, a[j]) && first_index(
                raw,
                a[0].name,
            ) < first_index(raw, a[j].name)));
            assert(key(by, b[0]) > key(by, b[k]) || (key(by, b[0]) == key(by, b[k]) && first_index(
                raw,
                b[0].name,
            ) < first_index(raw, b[k].name)));
        }
        assert(a[0] == b[0]);
        let a2 = a.drop_first();
        let b2 = b.drop_first();
        assert forall|i: int| 0 <= i < a2.len() implies first_index(raw, #[trigger] a2[i].name) < raw.len()
            && a2[i] == merged_record(raw, a2[i].name) && first_index(b2, a2[i].name) < b2.len() by {
            assert(a2[i] == a[i + 1]);
            let m = first_index(b, a[i + 1].name);
            lemma_first_index_found(b, a[i + 1].name);
            assert(key(by, a[0]) > key(by, a[i + 1]) || (key(by, a[0]) == key(by, a[i + 1]) && first_index(
                raw,
                a[0].name,
            ) < first_index(raw, a[i + 1].name)));
            assert(m != 0);
            assert(b2[m - 1] == b[m]);
            lemma_first_index_bound(b2, a2[i].name, m - 1);
        }
        assert forall|i: int| 0 <= i < b2.len() implies first_index(raw, #[trigger] b2[i].name) < raw.len()
            && b2[i] == merged_record(raw, b2[i].name) && first_index(a2, b2[i].name) < a2.len() by {
            assert(b2[i] == b[i + 1]);
            let m = first_index(a, b[i + 1].name);
            lemma_first_index_found(a, b[i + 1].name);
            assert(key(by, b[0]) > key(by, b[i + 1]) || (key(by, b[0]) == key(by, b[i + 1]) && first_index(
                raw,
                b[0].name,
            ) < first_index(raw, b[i + 1].name)));
            assert(m != 0);
            assert(a2[m - 1] == a[m]);
            lemma_first_index_bound(a2, b2[i].name, m - 1);
        }
        assert forall|i: int, j2: int| 0 <= i < j2 < a2.len() implies key(by, #[trigger] a2[i]) > key(
            by,
            #[trigger] a2[j2],
        ) || (key(by, a2[i]) == key(by, a2[j2]) && first_index(raw, a2[i].name) < first_index(
            raw,
            a2[j2].name,
        )) by {
            assert(a2[i] == a[i + 1] && a2[j2] == a[j2 + 1]);
        }
        assert forall|i: int, j2: int| 0 <= i < j2 < b2.len() implies key(by, #[trigger] b2[i]) > key(
            by,
            #[trigger] b2[j2],
        ) || (key(by, b2[i]) == key(by, b2[j2]) && first_index(raw, b2[i].name) < first_index(
            raw,
            b2[j2].name,
        )) by {
            assert(b2[i] == b[i + 1] && b2[j2] == b[j2 + 1]);
        }
        lemma_same_records(raw, by, a2, b2);
        assert(a.len() == b.len());
        assert forall|i: int| 0 <= i < a.len() implies a[i] == b[i] by {
            if i > 0 {
                assert(a[i] == a2[i - 1]);
                assert(b[i] == b2[i - 1]);
            }
        }
        assert(a =~= b);
    }
}

/// A process table is determined by the raw processes and the key: two tables
/// that both merge `raw` and are both in table order are equal. So refreshing
/// twice from the same processes, ties included, gives the same order.
pub proof fn lemma_table_is_unique(
    raw: Seq<ProcessView>,
    by: ProcessBy,
    a: Seq<ProcessView>,
    b: Seq<ProcessView>,
)
    requires
        merges(raw, a),
        in_table_order(raw, a, by),
        merges(raw, b),
        in_table_order(raw, b, by),
    ensures
        a == b,
{
    assert forall|i: int| 0 <= i < a.len() implies first_index(raw, #[trigger] a[i].name) < raw.len()
        && a[i] == merged_record(raw, a[i].name) && first_index(b, a[i].name) < b.len() by {
        lemma_first_index_found(raw, a[i].name);
    }
    assert forall|i: int| 0 <= i < b.len() implies first_index(raw, #[trigger] b[i].name) < raw.len()
        && b[i] == merged_record(raw, b[i].name) && first_index(a, b[i].name) < a.len() by {
        lemma_first_index_found(raw, b[i].name);
    }
    lemma_same_records(raw, by, a, b);
}

} // verus!
