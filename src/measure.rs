//! Measurement snapshots and the filter that picks one process's readings.
//!
//! Powers are whole microwatts and timestamps whole microseconds.
use vstd::prelude::*;

verus! {

/// The host-level reading of a snapshot.
#[derive(Clone, Copy, Debug, PartialEq, Eq, Structural)]
pub struct Host {
    /// Power drawn by the host, in microwatts.
    pub consumption: u64,
    /// When the snapshot was taken, in microseconds.
    pub timestamp: u64,
}

/// One process's reading inside a snapshot.
#[derive(Clone, Debug)]
pub struct Consumer {
    /// Executable of the process: a bare name or a path.
    pub exe: String,
    pub pid: i64,
    /// Power drawn by the process, in microwatts.
    pub consumption: u64,
    /// When the reading was taken, in microseconds.
    pub timestamp: u64,
}

/// One snapshot: the host reading and the readings of the processes seen at that instant.
#[derive(Clone, Debug)]
pub struct Measure {
    pub host: Host,
    pub consumers: Vec<Consumer>,
}

/// What the aggregation keeps of a matched process reading.
#[derive(Clone, Copy, Debug, PartialEq, Eq, Structural)]
pub struct Reading {
    /// Power, in microwatts.
    pub consumption: u64,
    /// Time of the reading, in microseconds.
    pub timestamp: u64,
}

impl Consumer {
    pub open spec fn reading(&self) -> Reading {
        Reading { consumption: self.consumption, timestamp: self.timestamp }
    }
}

/// The matching policy: `exe` names the process `name` when it is `name`
/// itself, or a path whose last components are `name` (it ends with `/`
/// followed by `name`).
pub open spec fn process_matches(exe: Seq<char>, name: Seq<char>) -> bool {
    ||| exe == name
    ||| (exe.len() > name.len() && exe[exe.len() - name.len() - 1] == '/' && exe.subrange(
        exe.len() - name.len(),
        exe.len() as int,
    ) == name)
}

/// The readings of `name` among `consumers`, in their order.
pub open spec fn matches_in(consumers: Seq<Consumer>, name: Seq<char>) -> Seq<Reading>
    decreases consumers.len(),
{
    if consumers.len() == 0 {
        Seq::empty()
    } else {
        let rest = matches_in(consumers.drop_last(), name);
        if process_matches(consumers.last().exe@, name) {
            rest.push(consumers.last().reading())
        } else {
            rest
        }
    }
}

/// The match set: the readings of `name` across all snapshots, in snapshot order.
pub open spec fn match_set(measures: Seq<Measure>, name: Seq<char>) -> Seq<Reading>
    decreases measures.len(),
{
    if measures.len() == 0 {
        Seq::empty()
    } else {
        match_set(measures.drop_last(), name) + matches_in(measures.last().consumers@, name)
    }
}

/// Whether `exe` and `name` agree on their last `m` characters.
fn tail_equals(exe: &str, n: usize, name: &str, m: usize) -> (r: bool)
    requires
        n == exe@.len(),
        m == name@.len(),
        m <= n,
    ensures
        r == (exe@.subrange(n - m, n as int) == name@),
{
    let mut i: usize = 0;
    while i < m
        invariant
            n == exe@.len(),
            m == name@.len(),
            m <= n,
            i <= m,
            forall|k: int| 0 <= k < i ==> exe@[n - m + k] == name@[k],
        decreases m - i,
    {
        if exe.get_char(n - m + i) != name.get_char(i) {
            assert(exe@.subrange(n - m, n as int)[i as int] != name@[i as int]);
            return false;
        }
        i = i + 1;
    }
    assert(exe@.subrange(n - m, n as int) =~= name@);
    true
}

/// Whether the executable `exe` is the process `name` (see `process_matches`).
pub fn matches_process(exe: &str, name: &str) -> (r: bool)
    ensures
        r == process_matches(exe@, name@),
{
    let n = exe.unicode_len();
    let m = name.unicode_len();
    if n == m {
        let r = tail_equals(exe, n, name, m);
        assert(exe@.subrange(0, n as int) =~= exe@);
        r
    } else if n > m {
        if exe.get_char(n - m - 1) != '/' {
            return false;
        }
        tail_equals(exe, n, name, m)
    } else {
        false
    }
}

/// The readings of `process_name` across `measures`, in snapshot order.
pub fn collect_matches(measures: &Vec<Measure>, process_name: &str) -> (r: Vec<Reading>)
    ensures
        r@ == match_set(measures@, process_name@),
{
    let mut out: Vec<Reading> = Vec::new();
    let mut i: usize = 0;
    assert(measures@.subrange(0, 0) =~= Seq::<Measure>::empty());
    while i < measures.len()
        invariant
            i <= measures@.len(),
            out@ == match_set(measures@.subrange(0, i as int), process_name@),
        decreases measures@.len() - i,
    {
        let consumers = &measures[i].consumers;
        let ghost before = out@;
        let mut j: usize = 0;
        assert(consumers@.subrange(0, 0) =~= Seq::<Consumer>::empty());
        assert(before + Seq::<Reading>::empty() =~= before);
        while j < consumers.len()
            invariant
                i < measures@.len(),
                consumers == measures@[i as int].consumers,
                j <= consumers@.len(),
                out@ == before + matches_in(consumers@.subrange(0, j as int), process_name@),
            decreases consumers@.len() - j,
        {
            let c = &consumers[j];
            assert(consumers@.subrange(0, j + 1).drop_last() =~= consumers@.subrange(0, j as int));
            if matches_process(c.exe.as_str(), process_name) {
                out.push(Reading { consumption: c.consumption, timestamp: c.timestamp });
            }
            proof {
                assert(out@ =~= before + matches_in(consumers@.subrange(0, j + 1), process_name@));
            }
            j = j + 1;
        }
        assert(consumers@.subrange(0, j as int) =~= consumers@);
        assert(measures@.subrange(0, i + 1).drop_last() =~= measures@.subrange(0, i as int));
        i = i + 1;
    }
    assert(measures@.subrange(0, i as int) =~= measures@);
    out
}

} // verus!
