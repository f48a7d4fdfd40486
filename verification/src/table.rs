//! The sample table: how often each folded stack was seen.

use crate::digits::{numeral, push_decimal};
use vstd::multiset::*;
use vstd::prelude::*;
use vstd::string::*;

verus! {

/// The sum of the counts of `rows`.
pub open spec fn sum_counts(rows: Seq<(String, u64)>) -> nat
    decreases rows.len(),
{
    if rows.len() == 0 {
        0
    } else {
        sum_counts(rows.drop_last()) + rows.last().1 as nat
    }
}

/// Whether `rows` lists `samples`: one row for each signature that occurs, no
/// signature twice, each with the number of times it occurs.
pub open spec fn lists(rows: Seq<(String, u64)>, samples: Multiset<Seq<char>>) -> bool {
    &&& forall|i: int, j: int|
        0 <= i < j < rows.len() ==> (#[trigger] rows[i]).0@ != (#[trigger] rows[j]).0@
    &&& forall|i: int|
        0 <= i < rows.len() ==> (#[trigger] rows[i]).1 >= 1 && rows[i].1 == samples.count(
            rows[i].0@,
        )
    &&& forall|s: Seq<char>|
        samples.count(s) > 0 ==> exists|i: int| 0 <= i < rows.len() && (#[trigger] rows[i]).0@ == s
    &&& rows.len() == samples.dom().len()
    &&& sum_counts(rows) == samples.len()
}

/// The samples after the signatures of `signatures` were recorded in their
/// order, one by one.
pub open spec fn recorded(samples: Multiset<Seq<char>>, signatures: Seq<Seq<char>>) -> Multiset<
    Seq<char>,
>
    decreases signatures.len(),
{
    if signatures.len() == 0 {
        samples
    } else {
        recorded(samples, signatures.drop_last()).insert(signatures.last())
    }
}

/// The line that reports a signature and its count.
pub open spec fn line_text(signature: Seq<char>, count: nat) -> Seq<char> {
    signature + seq![' '] + numeral(count, 10)
}

/// The sum of the counts grows by one where one count does.
proof fn lemma_sum_update(rows: Seq<(String, u64)>, i: int, row: (String, u64))
    requires
        0 <= i < rows.len(),
        row.1 == rows[i].1 + 1,
    ensures
        sum_counts(rows.update(i, row)) == sum_counts(rows) + 1,
    decreases rows.len(),
{
    let changed = rows.update(i, row);
    if i == rows.len() - 1 {
        assert(changed.drop_last() =~= rows.drop_last());
    } else {
        lemma_sum_update(rows.drop_last(), i, row);
        assert(changed.drop_last() =~= rows.drop_last().update(i, row));
    }
}

/// Recording adds one to the number of samples, whatever is recorded.
pub proof fn lemma_recorded_len(samples: Multiset<Seq<char>>, signatures: Seq<Seq<char>>)
    ensures
        recorded(samples, signatures).len() == samples.len() + signatures.len(),
    decreases signatures.len(),
{
    broadcast use group_multiset_axioms;

    if signatures.len() > 0 {
        lemma_recorded_len(samples, signatures.drop_last());
    }
}

/// What recording does to the count of one signature: it grows by the number
/// of times that the signature was recorded.
pub proof fn lemma_recorded_count(
    samples: Multiset<Seq<char>>,
    signatures: Seq<Seq<char>>,
    s: Seq<char>,
)
    ensures
        recorded(samples, signatures).count(s) == samples.count(s) + signatures.filter(
            |t: Seq<char>| t == s,
        ).len(),
    decreases signatures.len(),
{
    broadcast use group_multiset_axioms;

    let same = |t: Seq<char>| t == s;
    if signatures.len() > 0 {
        lemma_recorded_count(samples, signatures.drop_last(), s);
        reveal(Seq::filter);
    } else {
        reveal(Seq::filter);
    }
}

/// Recording the same signature `k` times adds `k` to its count: in an empty
/// table the count is `k`.
pub proof fn lemma_same_signature(samples: Multiset<Seq<char>>, s: Seq<char>, k: nat)
    ensures
        recorded(samples, Seq::new(k, |i: int| s)).count(s) == samples.count(s) + k,
        recorded(Multiset::empty(), Seq::new(k, |i: int| s)).count(s) == k,
    decreases k,
{
    broadcast use group_multiset_axioms;

    if k > 0 {
        lemma_same_signature(samples, s, (k - 1) as nat);
        lemma_same_signature(Multiset::empty(), s, (k - 1) as nat);
        assert(Seq::new(k, |i: int| s).drop_last() =~= Seq::new((k - 1) as nat, |i: int| s));
    }
}

/// Recording `m` signatures no two of which are equal, into an empty table,
/// gives `m` entries, each with the count one, and `m` samples in all.
pub proof fn lemma_distinct_signatures(signatures: Seq<Seq<char>>)
    requires
        signatures.no_duplicates(),
    ensures
        recorded(Multiset::empty(), signatures).dom() == signatures.to_set(),
        recorded(Multiset::empty(), signatures).dom().len() == signatures.len(),
        recorded(Multiset::empty(), signatures).len() == signatures.len(),
        forall|i: int|
            0 <= i < signatures.len() ==> recorded(Multiset::empty(), signatures).count(
                #[trigger] signatures[i],
            ) == 1,
    decreases signatures.len(),
{
    broadcast use group_multiset_axioms;
    broadcast use vstd::set::group_set_axioms;

    let all = recorded(Multiset::empty(), signatures);
    lemma_recorded_len(Multiset::empty(), signatures);
    if signatures.len() > 0 {
        let fewer = signatures.drop_last();
        let last = signatures.last();
        let before = recorded(Multiset::empty(), fewer);
        lemma_distinct_signatures(fewer);
        assert(!fewer.to_set().contains(last)) by {
            if fewer.to_set().contains(last) {
                let i = choose|i: int| 0 <= i < fewer.len() && fewer[i] == last;
                assert(signatures[i] == signatures[signatures.len() - 1]);
            }
        }
        assert(before.count(last) == 0);
        assert(all.dom() =~= before.dom().insert(last));
        assert(signatures.to_set() =~= fewer.to_set().insert(last)) by {
            assert forall|s: Seq<char>| signatures.to_set().contains(s) implies fewer.to_set().insert(
                last,
            ).contains(s) by {
                let i = choose|i: int| 0 <= i < signatures.len() && signatures[i] == s;
                if i < fewer.len() {
                    assert(fewer[i] == s);
                }
            }
            assert forall|s: Seq<char>| fewer.to_set().insert(last).contains(
                s,
            ) implies signatures.to_set().contains(s) by {
                if s == last {
                    assert(signatures[signatures.len() - 1] == s);
                } else {
                    let i = choose|i: int| 0 <= i < fewer.len() && fewer[i] == s;
                    assert(signatures[i] == s);
                }
            }
        }
        assert forall|i: int| 0 <= i < signatures.len() implies all.count(
            #[trigger] signatures[i],
        ) == 1 by {
            if i < fewer.len() {
                assert(fewer[i] == signatures[i]);
                assert(before.count(fewer[i]) == 1);
            }
        }
    } else {
        assert(all.dom() =~= Set::<Seq<char>>::empty());
        assert(signatures.to_set() =~= Set::<Seq<char>>::empty());
    }
}

/// The counts of the folded stacks that were sampled.
pub struct SampleTable {
    rows: Vec<(String, u64)>,
    total: u64,
    samples: Ghost<Multiset<Seq<char>>>,
}

impl View for SampleTable {
    type V = Multiset<Seq<char>>;

    /// The signatures that were recorded, each as often as it was.
    closed spec fn view(&self) -> Multiset<Seq<char>> {
        self.samples@
    }
}

impl SampleTable {
    /// Whether the rows of the table list its samples.
    pub closed spec fn wf(&self) -> bool {
        lists(self.rows@, self.samples@) && self.total == self.samples@.len()
    }

    /// An empty table.
    pub fn new() -> (table: SampleTable)
        ensures
            table.wf(),
            table@ == Multiset::<Seq<char>>::empty(),
    {
        broadcast use group_multiset_axioms;
        broadcast use vstd::set::group_set_axioms;

        let table = SampleTable { rows: Vec::new(), total: 0, samples: Ghost(Multiset::empty()) };
        assert(table.samples@.dom() =~= Set::<Seq<char>>::empty());
        table
    }

    /// Where the row of `signature` stands, if the table has one.
    fn position(&self, signature: &String) -> (found: Option<usize>)
        requires
            self.wf(),
        ensures
            found matches Some(i) ==> i < self.rows@.len() && self.rows@[i as int].0@
                == signature@,
            found is None ==> self@.count(signature@) == 0,
    {
        let mut i: usize = 0;
        while i < self.rows.len()
            invariant
                i <= self.rows@.len(),
                forall|j: int| 0 <= j < i ==> (#[trigger] self.rows@[j]).0@ != signature@,
            decreases self.rows@.len() - i,
        {
            if self.rows[i].0 == *signature {
                return Some(i);
            }
            i += 1;
        }
        None
    }

    /// Counts one more sample of `signature`: its count grows by one, from
    /// zero if it was not in the table.
    pub fn record(&mut self, signature: String)
        requires
            old(self).wf(),
            old(self)@.len() < u64::MAX,
        ensures
            final(self).wf(),
            final(self)@ == old(self)@.insert(signature@),
    {
        broadcast use group_multiset_axioms;
        broadcast use vstd::set::group_set_axioms;

        let ghost before = self.samples@;
        let ghost after = before.insert(signature@);
        let ghost old_rows = self.rows@;
        let ghost key = signature@;
        match self.position(&signature) {
            Some(i) => {
                let count: u64 = self.rows[i].1;
                assert(count == before.count(key));
                self.rows.set(i, (signature, count + 1));
                proof {
                    lemma_sum_update(old_rows, i as int, self.rows@[i as int]);
                    assert(after.dom() =~= before.dom());
                    assert forall|s: Seq<char>| after.count(s) > 0 implies exists|j: int|
                        0 <= j < self.rows@.len() && (#[trigger] self.rows@[j]).0@ == s by {
                        if s == key {
                            assert(self.rows@[i as int].0@ == s);
                        } else {
                            let j = choose|j: int|
                                0 <= j < old_rows.len() && (#[trigger] old_rows[j]).0@ == s;
                            assert(self.rows@[j].0@ == s);
                        }
                    }
                    assert forall|a: int, b: int| 0 <= a < b < self.rows@.len() implies (
                    #[trigger] self.rows@[a]).0@ != (#[trigger] self.rows@[b]).0@ by {
                        assert(self.rows@[a].0@ == old_rows[a].0@);
                        assert(self.rows@[b].0@ == old_rows[b].0@);
                    }
                    assert forall|a: int| 0 <= a < self.rows@.len() implies (
                    #[trigger] self.rows@[a]).1 >= 1 && self.rows@[a].1 == after.count(
                        self.rows@[a].0@,
                    ) by {
                        if a != i {
                            assert(self.rows@[a] == old_rows[a]);
                            if a < i {
                                assert(old_rows[a].0@ != old_rows[i as int].0@);
                            } else {
                                assert(old_rows[i as int].0@ != old_rows[a].0@);
                            }
                        }
                    }
                }
            },
            None => {
                self.rows.push((signature, 1));
                proof {
                    assert(self.rows@.drop_last() =~= old_rows);
                    assert(!before.dom().contains(key));
                    assert(after.dom() =~= before.dom().insert(key));
                    assert forall|s: Seq<char>| after.count(s) > 0 implies exists|j: int|
                        0 <= j < self.rows@.len() && (#[trigger] self.rows@[j]).0@ == s by {
                        if s == key {
                            assert(self.rows@[old_rows.len() as int].0@ == s);
                        } else {
                            let j = choose|j: int|
                                0 <= j < old_rows.len() && (#[trigger] old_rows[j]).0@ == s;
                            assert(self.rows@[j].0@ == s);
                        }
                    }
                    assert forall|a: int, b: int| 0 <= a < b < self.rows@.len() implies (
                    #[trigger] self.rows@[a]).0@ != (#[trigger] self.rows@[b]).0@ by {
                        assert(self.rows@[a] == old_rows[a]);
                        if b < old_rows.len() {
                            assert(self.rows@[b] == old_rows[b]);
                        }
                    }
                    assert forall|a: int| 0 <= a < self.rows@.len() implies (
                    #[trigger] self.rows@[a]).1 >= 1 && self.rows@[a].1 == after.count(
                        self.rows@[a].0@,
                    ) by {
                        if a < old_rows.len() {
                            assert(self.rows@[a] == old_rows[a]);
                        }
                    }
                }
            },
        }
        self.total = self.total + 1;
        self.samples = Ghost(after);
    }

    /// How often `signature` was recorded.
    pub fn count(&self, signature: &String) -> (count: u64)
        requires
            self.wf(),
        ensures
            count == self@.count(signature@),
    {
        match self.position(signature) {
            Some(i) => self.rows[i].1,
            None => 0,
        }
    }

    /// How many signatures the table holds.
    pub fn entries(&self) -> (entries: usize)
        requires
            self.wf(),
        ensures
            entries == self@.dom().len(),
    {
        self.rows.len()
    }

    /// How many samples were recorded in all.
    pub fn total(&self) -> (total: u64)
        requires
            self.wf(),
        ensures
            total == self@.len(),
    {
        self.total
    }

    /// Hands out what the table holds, one row for each signature with its
    /// count, and uses the table up.
    pub fn drain(self) -> (rows: Vec<(String, u64)>)
        requires
            self.wf(),
        ensures
            lists(rows@, self@),
    {
        self.rows
    }
}

/// Writes the line that reports one signature and its count.
pub fn format_line(signature: &String, count: u64) -> (line: String)
    ensures
        line@ == line_text(signature@, count as nat),
{
    let mut line = signature.clone();
    proof {
        reveal_strlit(" ");
    }
    line.append(" ");
    assert(" "@ =~= seq![' ']);
    push_decimal(&mut line, count);
    line
}

/// Writes one line for each row, in the order of the rows.
pub fn format_lines(rows: &Vec<(String, u64)>) -> (lines: Vec<String>)
    ensures
        lines@.len() == rows@.len(),
        forall|i: int|
            0 <= i < rows@.len() ==> (#[trigger] lines@[i])@ == line_text(
                rows@[i].0@,
                rows@[i].1 as nat,
            ),
{
    let mut lines: Vec<String> = Vec::new();
    let mut i: usize = 0;
    while i < rows.len()
        invariant
            i <= rows@.len(),
            lines@.len() == i,
            forall|j: int|
                0 <= j < i ==> (#[trigger] lines@[j])@ == line_text(rows@[j].0@, rows@[j].1 as nat),
        decreases rows@.len() - i,
    {
        lines.push(format_line(&rows[i].0, rows[i].1));
        i += 1;
    }
    lines
}

} // verus!
