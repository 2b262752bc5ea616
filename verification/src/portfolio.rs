//! Transaction records and their aggregation into per-month revenue totals.
//!
//! A batch of records is grouped by (year, month); the amounts of the
//! records in each bucket are summed exactly.  All amounts are integer
//! cents, so sums are exact and order-independent.

use vstd::prelude::*;
use vstd::seq_lib::commutative_foldr;
use vstd::seq_lib::lemma_fold_right_permutation;

verus! {

/// One parsed transaction row.  The amount is in integer cents.
pub struct TransactionRecord {
    pub client_id: String,
    pub amount_cents: i64,
    pub year: i32,
    pub month: i32,
}

impl TransactionRecord {
    /// The (year, month) bucket this record belongs to.
    pub open spec fn key(self) -> (int, int) {
        (self.year as int, self.month as int)
    }
}

/// Sum of the amounts of a sequence of records, in cents.
pub open spec fn sum_amounts(records: Seq<TransactionRecord>) -> int
    decreases records.len(),
{
    if records.len() == 0 {
        0
    } else {
        sum_amounts(records.drop_last()) + records.last().amount_cents
    }
}

/// Sum of the amounts of the records that fall in the bucket `key`.
pub open spec fn sum_amounts_for_key(records: Seq<TransactionRecord>, key: (int, int)) -> int
    decreases records.len(),
{
    if records.len() == 0 {
        0
    } else {
        sum_amounts_for_key(records.drop_last(), key) + if records.last().key() == key {
            records.last().amount_cents as int
        } else {
            0
        }
    }
}

/// Does some record of `records` fall in the bucket `key`?
pub open spec fn records_have_key(records: Seq<TransactionRecord>, key: (int, int)) -> bool {
    exists|i: int| 0 <= i < records.len() && records[i].key() == key
}

/// The number of distinct (year, month) buckets among `records`.
pub open spec fn num_distinct_keys(records: Seq<TransactionRecord>) -> int
    decreases records.len(),
{
    if records.len() == 0 {
        0
    } else {
        num_distinct_keys(records.drop_last()) + if records_have_key(
            records.drop_last(),
            records.last().key(),
        ) {
            0int
        } else {
            1int
        }
    }
}

/// Absolute value, used to bound partial sums away from overflow.
pub open spec fn abs_cents(x: int) -> int {
    if x >= 0 {
        x
    } else {
        -x
    }
}

/// Largest possible magnitude of one record's amount (|i64::MIN|).
pub open spec fn max_record_abs() -> int {
    0x8000000000000000
}

/// Largest magnitude a sum of record amounts can reach: one maximal
/// amount per possible vector slot.  This stays below `i128::MAX`.
pub open spec fn max_sum_abs() -> int {
    0xffffffffffffffffint * 0x8000000000000000int
}

/// One aggregated bucket: a (year, month) pair and the summed amount.
pub struct MonthEntry {
    pub year: i32,
    pub month: i32,
    pub total_cents: i128,
}

impl MonthEntry {
    /// The bucket identifier of this entry.
    pub open spec fn key(self) -> (int, int) {
        (self.year as int, self.month as int)
    }
}

/// Sum of the bucket totals of a sequence of entries.
pub open spec fn sum_entry_totals(s: Seq<MonthEntry>) -> int
    decreases s.len(),
{
    if s.len() == 0 {
        0
    } else {
        sum_entry_totals(s.drop_last()) + s.last().total_cents
    }
}

/// Sum of the magnitudes of the bucket totals.
pub open spec fn sum_abs_totals(s: Seq<MonthEntry>) -> int
    decreases s.len(),
{
    if s.len() == 0 {
        0
    } else {
        sum_abs_totals(s.drop_last()) + abs_cents(s.last().total_cents as int)
    }
}

/// No two entries describe the same bucket.
pub open spec fn keys_distinct(s: Seq<MonthEntry>) -> bool {
    forall|i: int, j: int| 0 <= i < j < s.len() ==> #[trigger] s[i].key() != #[trigger] s[j].key()
}

/// Does some entry of `s` describe the bucket `key`?
pub open spec fn entries_have_key(s: Seq<MonthEntry>, key: (int, int)) -> bool {
    exists|i: int| 0 <= i < s.len() && s[i].key() == key
}

/// The mapping from bucket to total that a sequence of entries describes.
pub open spec fn entries_map(s: Seq<MonthEntry>) -> Map<(int, int), int>
    decreases s.len(),
{
    if s.len() == 0 {
        Map::empty()
    } else {
        entries_map(s.drop_last()).insert(s.last().key(), s.last().total_cents as int)
    }
}

/// The revenue of a portfolio, grouped by (year, month) bucket.
///
/// Viewed as a map from bucket to summed amount in cents.  The entry
/// order carries no meaning and is not exposed.
pub struct MonthlyRevenue {
    entries: Vec<MonthEntry>,
}

impl View for MonthlyRevenue {
    type V = Map<(int, int), int>;

    closed spec fn view(&self) -> Map<(int, int), int> {
        entries_map(self.entries@)
    }
}

impl MonthlyRevenue {
    /// Internal invariant: buckets are unique and the totals stay far
    /// enough from the `i128` range that further sums cannot overflow.
    pub closed spec fn wf(&self) -> bool {
        &&& keys_distinct(self.entries@)
        &&& sum_abs_totals(self.entries@) <= max_sum_abs()
    }

    /// The total revenue over all buckets, in cents.
    pub closed spec fn total_spec(&self) -> int {
        sum_entry_totals(self.entries@)
    }

    /// The number of distinct months with activity.
    pub closed spec fn months_spec(&self) -> int {
        self.entries@.len() as int
    }

    /// A well-formed revenue map keeps its total within the safe range.
    pub proof fn lemma_total_bounded(&self)
        requires
            self.wf(),
        ensures
            -max_sum_abs() <= self.total_spec() <= max_sum_abs(),
            self.months_spec() >= 0,
    {
        lemma_sum_totals_le_sum_abs(self.entries@);
        lemma_sum_abs_nonneg(self.entries@);
    }
}

proof fn lemma_sum_abs_nonneg(s: Seq<MonthEntry>)
    ensures
        sum_abs_totals(s) >= 0,
    decreases s.len(),
{
    if s.len() > 0 {
        lemma_sum_abs_nonneg(s.drop_last());
    }
}

proof fn lemma_sum_update(s: Seq<MonthEntry>, j: int, e: MonthEntry)
    requires
        0 <= j < s.len(),
    ensures
        sum_entry_totals(s.update(j, e)) == sum_entry_totals(s) - s[j].total_cents + e.total_cents,
        sum_abs_totals(s.update(j, e)) == sum_abs_totals(s) - abs_cents(s[j].total_cents as int)
            + abs_cents(e.total_cents as int),
    decreases s.len(),
{
    let t = s.update(j, e);
    if j == s.len() - 1 {
        assert(t.drop_last() =~= s.drop_last());
    } else {
        assert(t.drop_last() =~= s.drop_last().update(j, e));
        assert(t.last() == s.last());
        lemma_sum_update(s.drop_last(), j, e);
        assert(s.drop_last()[j] == s[j]);
    }
}

proof fn lemma_entry_abs_le_sum_abs(s: Seq<MonthEntry>, j: int)
    requires
        0 <= j < s.len(),
    ensures
        abs_cents(s[j].total_cents as int) <= sum_abs_totals(s),
    decreases s.len(),
{
    if j == s.len() - 1 {
        lemma_sum_abs_nonneg(s.drop_last());
    } else {
        lemma_entry_abs_le_sum_abs(s.drop_last(), j);
        assert(s.drop_last()[j] == s[j]);
    }
}

proof fn lemma_sum_totals_le_sum_abs(s: Seq<MonthEntry>)
    ensures
        -sum_abs_totals(s) <= sum_entry_totals(s) <= sum_abs_totals(s),
    decreases s.len(),
{
    if s.len() > 0 {
        lemma_sum_totals_le_sum_abs(s.drop_last());
    }
}

proof fn lemma_sum_abs_take_le(s: Seq<MonthEntry>, j: int)
    requires
        0 <= j <= s.len(),
    ensures
        sum_abs_totals(s.take(j)) <= sum_abs_totals(s),
    decreases s.len() - j,
{
    if j == s.len() {
        assert(s.take(j) =~= s);
    } else {
        assert(s.take(j + 1).drop_last() =~= s.take(j));
        assert(s.take(j + 1).last() == s[j]);
        lemma_sum_abs_take_le(s, j + 1);
    }
}

proof fn lemma_entries_map_contains(s: Seq<MonthEntry>, key: (int, int))
    ensures
        entries_map(s).contains_key(key) <==> entries_have_key(s, key),
    decreases s.len(),
{
    if s.len() == 0 {
    } else {
        lemma_entries_map_contains(s.drop_last(), key);
        if s.last().key() == key {
            assert(s[s.len() - 1].key() == key);
            assert(entries_have_key(s, key));
        } else {
            if entries_have_key(s.drop_last(), key) {
                let i = choose|i: int| 0 <= i < s.drop_last().len() && s.drop_last()[i].key() == key;
                assert(s[i].key() == key);
            }
            if entries_have_key(s, key) {
                let i = choose|i: int| 0 <= i < s.len() && s[i].key() == key;
                assert(i < s.len() - 1);
                assert(s.drop_last()[i].key() == key);
            }
        }
    }
}

proof fn lemma_distinct_drop_last(s: Seq<MonthEntry>)
    requires
        keys_distinct(s),
        s.len() > 0,
    ensures
        keys_distinct(s.drop_last()),
{
    assert forall|i: int, j: int| 0 <= i < j < s.drop_last().len() implies #[trigger] s.drop_last()[i].key()
        != #[trigger] s.drop_last()[j].key() by {
        assert(s.drop_last()[i] == s[i]);
        assert(s.drop_last()[j] == s[j]);
    }
}

proof fn lemma_entries_map_value(s: Seq<MonthEntry>, j: int)
    requires
        keys_distinct(s),
        0 <= j < s.len(),
    ensures
        entries_map(s).contains_key(s[j].key()),
        entries_map(s)[s[j].key()] == s[j].total_cents as int,
    decreases s.len(),
{
    if j == s.len() - 1 {
    } else {
        lemma_distinct_drop_last(s);
        lemma_entries_map_value(s.drop_last(), j);
        assert(s.drop_last()[j] == s[j]);
        assert(s[j].key() != s.last().key());
    }
}

proof fn lemma_entries_map_dom_len(s: Seq<MonthEntry>)
    requires
        keys_distinct(s),
    ensures
        entries_map(s).dom().finite(),
        entries_map(s).dom().len() == s.len(),
    decreases s.len(),
{
    if s.len() == 0 {
        assert(entries_map(s).dom() =~= Set::<(int, int)>::empty());
    } else {
        lemma_distinct_drop_last(s);
        lemma_entries_map_dom_len(s.drop_last());
        lemma_entries_map_contains(s.drop_last(), s.last().key());
        if entries_have_key(s.drop_last(), s.last().key()) {
            let i = choose|i: int|
                0 <= i < s.drop_last().len() && s.drop_last()[i].key() == s.last().key();
            assert(s[i].key() == s[s.len() - 1].key());
            assert(false);
        }
        assert(entries_map(s).dom() =~= entries_map(s.drop_last()).dom().insert(s.last().key()));
    }
}

proof fn lemma_sum_for_key_absent(records: Seq<TransactionRecord>, key: (int, int))
    requires
        !records_have_key(records, key),
    ensures
        sum_amounts_for_key(records, key) == 0,
    decreases records.len(),
{
    if records.len() > 0 {
        assert(records[records.len() - 1].key() != key);
        if records_have_key(records.drop_last(), key) {
            let i = choose|i: int|
                0 <= i < records.drop_last().len() && records.drop_last()[i].key() == key;
            assert(records[i].key() == key);
        }
        lemma_sum_for_key_absent(records.drop_last(), key);
    }
}

fn find_entry(entries: &Vec<MonthEntry>, year: i32, month: i32) -> (r: Option<usize>)
    ensures
        match r {
            Some(j) => 0 <= j < entries@.len() && entries@[j as int].year == year
                && entries@[j as int].month == month,
            None => forall|j: int|
                0 <= j < entries@.len() ==> !((#[trigger] entries@[j]).year == year
                    && entries@[j].month == month),
        },
{
    let mut j: usize = 0;
    while j < entries.len()
        invariant
            j <= entries@.len(),
            forall|jj: int|
                0 <= jj < j ==> !((#[trigger] entries@[jj]).year == year && entries@[jj].month
                    == month),
        decreases entries@.len() - j,
    {
        if entries[j].year == year && entries[j].month == month {
            return Some(j);
        }
        j += 1;
    }
    None
}

/// Group `records` by (year, month) and sum the amounts in each bucket.
///
/// The result maps exactly the buckets that occur in `records`, each to
/// the exact sum of the amounts of its records; the overall total equals
/// the sum of all record amounts.
pub fn aggregate(records: &Vec<TransactionRecord>) -> (r: MonthlyRevenue)
    ensures
        r.wf(),
        forall|key: (int, int)| #[trigger] r@.contains_key(key) <==> records_have_key(records@, key),
        forall|key: (int, int)|
            #[trigger] r@.contains_key(key) ==> r@[key] == sum_amounts_for_key(records@, key),
        r.total_spec() == sum_amounts(records@),
        r.months_spec() == num_distinct_keys(records@),
        r@.dom().finite(),
        r@.dom().len() == r.months_spec(),
{
    let ghost rs = records@;
    let mut entries: Vec<MonthEntry> = Vec::new();
    let n = records.len();
    let mut i: usize = 0;
    while i < n
        invariant
            i <= n,
            n == rs.len(),
            rs == records@,
            keys_distinct(entries@),
            forall|key: (int, int)|
                #[trigger] entries_have_key(entries@, key) <==> records_have_key(
                    rs.take(i as int),
                    key,
                ),
            forall|j: int|
                0 <= j < entries@.len() ==> entries@[j].total_cents as int == sum_amounts_for_key(
                    rs.take(i as int),
                    (#[trigger] entries@[j]).key(),
                ),
            sum_entry_totals(entries@) == sum_amounts(rs.take(i as int)),
            entries@.len() == num_distinct_keys(rs.take(i as int)),
            sum_abs_totals(entries@) <= (i as int) * max_record_abs(),
        decreases n - i,
    {
        let rec = &records[i];
        let ghost prev_entries = entries@;
        let ghost prefix = rs.take(i as int);
        let ghost prefix1 = rs.take(i as int + 1);
        proof {
            assert(prefix1.drop_last() =~= prefix);
            assert(prefix1.last() == rs[i as int]);
            assert((i as int + 1) * max_record_abs() == (i as int) * max_record_abs()
                + max_record_abs());
            assert((i as int + 1) * max_record_abs() <= 0xffffffffffffffffint
                * 0x8000000000000000int) by {
                vstd::arithmetic::mul::lemma_mul_inequality(
                    i as int + 1,
                    0xffffffffffffffffint,
                    0x8000000000000000int,
                );
            }
            assert(max_sum_abs() == 0x7fffffffffffffff8000000000000000int) by (nonlinear_arith);
        }
        match find_entry(&entries, rec.year, rec.month) {
            Some(j) => {
                proof {
                    lemma_entry_abs_le_sum_abs(prev_entries, j as int);
                }
                let updated = MonthEntry {
                    year: rec.year,
                    month: rec.month,
                    total_cents: entries[j].total_cents + (rec.amount_cents as i128),
                };
                entries[j] = updated;
                proof {
                    lemma_sum_update(prev_entries, j as int, updated);
                    assert(entries@ == prev_entries.update(j as int, updated));
                    assert forall|jj: int| 0 <= jj < entries@.len() implies (
                    #[trigger] entries@[jj]).key() == prev_entries[jj].key() by {}
                    // The set of bucket keys is unchanged.
                    assert forall|key: (int, int)| #[trigger] entries_have_key(entries@, key)
                        <==> entries_have_key(prev_entries, key) by {
                        if entries_have_key(entries@, key) {
                            let w = choose|w: int|
                                0 <= w < entries@.len() && entries@[w].key() == key;
                            assert(prev_entries[w].key() == key);
                        }
                        if entries_have_key(prev_entries, key) {
                            let w = choose|w: int|
                                0 <= w < prev_entries.len() && prev_entries[w].key() == key;
                            assert(entries@[w].key() == key);
                        }
                    }
                    // Adding this record extends each bucket of the prefix.
                    assert forall|key: (int, int)| #[trigger] records_have_key(prefix1, key) <==> (
                    records_have_key(prefix, key) || key == rs[i as int].key()) by {
                        if records_have_key(prefix1, key) {
                            let w = choose|w: int|
                                0 <= w < prefix1.len() && prefix1[w].key() == key;
                            if w < prefix.len() {
                                assert(prefix[w].key() == key);
                            }
                        }
                        if records_have_key(prefix, key) {
                            let w = choose|w: int| 0 <= w < prefix.len() && prefix[w].key() == key;
                            assert(prefix1[w].key() == key);
                        }
                        if key == rs[i as int].key() {
                            assert(prefix1[i as int].key() == key);
                        }
                    }
                    assert(entries_have_key(prev_entries, rs[i as int].key())) by {
                        assert(prev_entries[j as int].key() == rs[i as int].key());
                    }
                    assert forall|jj: int| 0 <= jj < entries@.len() implies entries@[jj].total_cents
                        as int == sum_amounts_for_key(
                        prefix1,
                        (#[trigger] entries@[jj]).key(),
                    ) by {
                        if jj != j as int {
                            assert(entries@[jj] == prev_entries[jj]);
                            assert(prev_entries[jj].key() != prev_entries[j as int].key());
                        }
                    }
                }
            },
            None => {
                let fresh = MonthEntry {
                    year: rec.year,
                    month: rec.month,
                    total_cents: rec.amount_cents as i128,
                };
                entries.push(fresh);
                proof {
                    assert(entries@ == prev_entries.push(fresh));
                    assert(entries@.drop_last() =~= prev_entries);
                    assert(!entries_have_key(prev_entries, rs[i as int].key())) by {
                        if entries_have_key(prev_entries, rs[i as int].key()) {
                            let w = choose|w: int|
                                0 <= w < prev_entries.len() && prev_entries[w].key()
                                    == rs[i as int].key();
                            assert(prev_entries[w].year == rec.year);
                            assert(prev_entries[w].month == rec.month);
                        }
                    }
                    assert(!records_have_key(prefix, rs[i as int].key()));
                    lemma_sum_for_key_absent(prefix, rs[i as int].key());
                    lemma_sum_abs_nonneg(prev_entries);
                    // Distinctness is kept: the new key was absent.
                    assert forall|a: int, b: int| 0 <= a < b < entries@.len() implies (
                    #[trigger] entries@[a]).key() != (#[trigger] entries@[b]).key() by {
                        if b < entries@.len() - 1 {
                            assert(entries@[a] == prev_entries[a]);
                            assert(entries@[b] == prev_entries[b]);
                        } else {
                            assert(entries@[a] == prev_entries[a]);
                            if entries@[a].key() == rs[i as int].key() {
                                assert(entries_have_key(prev_entries, rs[i as int].key()));
                            }
                        }
                    }
                    assert forall|key: (int, int)| #[trigger] entries_have_key(entries@, key)
                        <==> records_have_key(prefix1, key) by {
                        if entries_have_key(entries@, key) {
                            let w = choose|w: int|
                                0 <= w < entries@.len() && entries@[w].key() == key;
                            if w < prev_entries.len() {
                                assert(prev_entries[w].key() == key);
                                assert(entries_have_key(prev_entries, key));
                                assert(records_have_key(prefix, key));
                                let v = choose|v: int|
                                    0 <= v < prefix.len() && prefix[v].key() == key;
                                assert(prefix1[v].key() == key);
                            } else {
                                assert(prefix1[i as int].key() == key);
                            }
                        }
                        if records_have_key(prefix1, key) {
                            let w = choose|w: int|
                                0 <= w < prefix1.len() && prefix1[w].key() == key;
                            if w < prefix.len() {
                                assert(prefix[w].key() == key);
                                assert(records_have_key(prefix, key));
                                assert(entries_have_key(prev_entries, key));
                                let v = choose|v: int|
                                    0 <= v < prev_entries.len() && prev_entries[v].key() == key;
                                assert(entries@[v].key() == key);
                            } else {
                                assert(entries@[entries@.len() - 1].key() == key);
                            }
                        }
                    }
                    assert forall|jj: int| 0 <= jj < entries@.len() implies entries@[jj].total_cents
                        as int == sum_amounts_for_key(
                        prefix1,
                        (#[trigger] entries@[jj]).key(),
                    ) by {
                        if jj < entries@.len() - 1 {
                            assert(entries@[jj] == prev_entries[jj]);
                            assert(entries_have_key(prev_entries, prev_entries[jj].key())) by {
                                assert(prev_entries[jj].key() == prev_entries[jj].key());
                            }
                            assert(prev_entries[jj].key() != rs[i as int].key());
                        }
                    }
                }
            },
        }
        i += 1;
    }
    proof {
        assert(rs.take(n as int) =~= rs);
        assert forall|key: (int, int)| #[trigger] entries_map(entries@).contains_key(key)
            <==> records_have_key(rs, key) by {
            lemma_entries_map_contains(entries@, key);
        }
        assert forall|key: (int, int)| #[trigger] entries_map(entries@).contains_key(key)
            implies entries_map(entries@)[key] == sum_amounts_for_key(rs, key) by {
            lemma_entries_map_contains(entries@, key);
            let j = choose|j: int| 0 <= j < entries@.len() && entries@[j].key() == key;
            lemma_entries_map_value(entries@, j);
        }
        lemma_entries_map_dom_len(entries@);
    }
    MonthlyRevenue { entries }
}

impl MonthlyRevenue {
    /// The total revenue over all buckets, in cents.
    pub fn total_revenue(&self) -> (r: i128)
        requires
            self.wf(),
        ensures
            r as int == self.total_spec(),
    {
        let ghost s = self.entries@;
        let mut total: i128 = 0;
        let mut j: usize = 0;
        while j < self.entries.len()
            invariant
                j <= s.len(),
                s == self.entries@,
                self.wf(),
                total as int == sum_entry_totals(s.take(j as int)),
            decreases s.len() - j,
        {
            proof {
                assert(s.take(j as int + 1).drop_last() =~= s.take(j as int));
                assert(s.take(j as int + 1).last() == s[j as int]);
                lemma_sum_totals_le_sum_abs(s.take(j as int + 1));
                lemma_sum_abs_take_le(s, j as int + 1);
                assert(max_sum_abs() == 0x7fffffffffffffff8000000000000000int) by (nonlinear_arith);
            }
            total = total + self.entries[j].total_cents;
            j += 1;
        }
        proof {
            assert(s.take(s.len() as int) =~= s);
        }
        total
    }

    /// How many distinct (year, month) buckets have activity.
    pub fn months_active(&self) -> (r: usize)
        ensures
            r as int == self.months_spec(),
    {
        self.entries.len()
    }

    /// Look up the summed revenue of one (year, month) bucket.
    pub fn lookup(&self, year: i32, month: i32) -> (r: Option<i128>)
        requires
            self.wf(),
        ensures
            match r {
                Some(v) => self@.contains_key((year as int, month as int)) && v as int == self@[
                    (year as int, month as int)
                ],
                None => !self@.contains_key((year as int, month as int)),
            },
    {
        match find_entry(&self.entries, year, month) {
            Some(j) => {
                proof {
                    lemma_entries_map_value(self.entries@, j as int);
                    assert(self.entries@[j as int].key() == (year as int, month as int));
                }
                Some(self.entries[j].total_cents)
            },
            None => {
                proof {
                    lemma_entries_map_contains(self.entries@, (year as int, month as int));
                    if entries_have_key(self.entries@, (year as int, month as int)) {
                        let w = choose|w: int|
                            0 <= w < self.entries@.len() && self.entries@[w].key() == (
                            year as int,
                            month as int,
                        );
                        assert(self.entries@[w].year == year);
                        assert(self.entries@[w].month == month);
                    }
                }
                None
            },
        }
    }
}

proof fn lemma_sum_amounts_fold(
    s: Seq<TransactionRecord>,
    f: spec_fn(TransactionRecord, int) -> int,
    b: int,
)
    requires
        forall|r: TransactionRecord, acc: int| #[trigger] f(r, acc) == r.amount_cents + acc,
    ensures
        s.fold_right(f, b) == sum_amounts(s) + b,
    decreases s.len(),
{
    if s.len() > 0 {
        lemma_sum_amounts_fold(s.drop_last(), f, f(s.last(), b));
    }
}

/// The total amount of a batch of records does not depend on the order
/// of the records: any two batches holding the same records, however
/// arranged, have the same sum.
pub proof fn lemma_sum_amounts_permutation(l1: Seq<TransactionRecord>, l2: Seq<TransactionRecord>)
    requires
        l1.to_multiset() == l2.to_multiset(),
    ensures
        sum_amounts(l1) == sum_amounts(l2),
{
    let f = |r: TransactionRecord, acc: int| r.amount_cents + acc;
    assert(commutative_foldr(f)) by {
        assert forall|x: TransactionRecord, y: TransactionRecord, v: int| #[trigger] f(x, f(y, v))
            == f(y, f(x, v)) by {}
    }
    lemma_sum_amounts_fold(l1, f, 0);
    lemma_sum_amounts_fold(l2, f, 0);
    lemma_fold_right_permutation(l1, l2, f, 0);
}

} // verus!
