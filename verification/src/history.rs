//! Usage history: persisted counters keyed by an application's stable id.
//! Counts bias the ranking (frequently launched applications win ties) and
//! are incremented on every successful launch.  The store serializes to a
//! line-based text form that parses back to the same records, so a count
//! written before the launcher exits is read back unchanged on the next
//! start.

use vstd::prelude::*;
use crate::text::{
    chars_to_string, dec_digits, is_digit, lemma_dec_digits_val, parse_u64_range,
    parse_u64_spec, push_char, str_chars, str_eq, subrange_vec, u64_to_string,
};
use vstd::string::StringExecFns;

verus! {

/// One persisted usage counter.
pub struct HistoryRecord {
    /// The stable id of the application (its desktop-entry id).
    pub id: String,
    /// How many times the application has been launched.
    pub count: u64,
}

/// The usage history: one record per application id.
pub struct History {
    pub records: Vec<HistoryRecord>,
}

/// Ids are stored one per line, so they must not contain the two
/// characters the format uses as separators.
pub open spec fn valid_id(id: Seq<char>) -> bool {
    forall|i: int| 0 <= i < id.len() ==> id[i] != '\n' && id[i] != '\t'
}

/// Whether `id` can be stored: callers check unknown ids with this
/// before recording a launch under them.
pub fn id_is_storable(id: &str) -> (r: bool)
    ensures
        r == valid_id(id@),
{
    let cs = str_chars(id);
    let n = cs.len();
    let mut i: usize = 0;
    while i < n
        invariant
            i <= n,
            n == cs@.len(),
            cs@ == id@,
            forall|j: int| 0 <= j < i ==> id@[j] != '\n' && id@[j] != '\t',
        decreases n - i,
    {
        if cs[i] == '\n' || cs[i] == '\t' {
            return false;
        }
        i = i + 1;
    }
    true
}

/// The count recorded for `id` in `records`: the count of the first
/// record with that id, or zero if there is none.
pub open spec fn count_in(records: Seq<HistoryRecord>, id: Seq<char>) -> u64
    decreases records.len(),
{
    if records.len() == 0 {
        0
    } else if records[0].id@ == id {
        records[0].count
    } else {
        count_in(records.drop_first(), id)
    }
}

/// Whether some record in `records` carries `id`.
pub open spec fn has_id(records: Seq<HistoryRecord>, id: Seq<char>) -> bool {
    exists|i: int| 0 <= i < records.len() && records[i].id@ == id
}

impl History {
    /// Every id is storable and appears in at most one record.
    pub open spec fn wf(self) -> bool {
        &&& forall|i: int|
            0 <= i < self.records@.len() ==> valid_id(#[trigger] self.records@[i].id@)
        &&& forall|i: int, j: int|
            0 <= i < j < self.records@.len() ==> self.records@[i].id@ != self.records@[j].id@
    }

    /// The count recorded for `id`, or zero.
    pub open spec fn spec_count(self, id: Seq<char>) -> u64 {
        count_in(self.records@, id)
    }

    /// An empty history.
    pub fn new() -> (r: History)
        ensures
            r.wf(),
            r.records@.len() == 0,
            forall|id: Seq<char>| r.spec_count(id) == 0,
    {
        History { records: Vec::new() }
    }

    /// The usage count recorded for `id` (zero if `id` was never launched).
    pub fn lookup(&self, id: &str) -> (r: u64)
        ensures
            r == self.spec_count(id@),
    {
        let n = self.records.len();
        let mut i: usize = 0;
        assert(self.records@.skip(0) =~= self.records@);
        while i < n
            invariant
                i <= n,
                n == self.records@.len(),
                count_in(self.records@, id@) == count_in(self.records@.skip(i as int), id@),
            decreases n - i,
        {
            proof {
                assert(self.records@.skip(i as int)[0] == self.records@[i as int]);
                assert(self.records@.skip(i as int).drop_first() =~= self.records@.skip(
                    i + 1,
                ));
            }
            if str_eq(self.records[i].id.as_str(), id) {
                return self.records[i].count;
            }
            i = i + 1;
        }
        0
    }

    /// Record one successful launch of the application with stable id
    /// `id`: its counter grows by exactly one and no other counter moves.
    pub fn record_launch(&mut self, id: &str)
        requires
            old(self).wf(),
            valid_id(id@),
            old(self).spec_count(id@) < u64::MAX,
        ensures
            final(self).wf(),
            final(self).spec_count(id@) == old(self).spec_count(id@) + 1,
            forall|other: Seq<char>|
                other != id@ ==> final(self).spec_count(other) == old(self).spec_count(other),
    {
        let n = self.records.len();
        let mut i: usize = 0;
        while i < n
            invariant
                i <= n,
                *self == *old(self),
                n == self.records@.len(),
                old(self).wf(),
                valid_id(id@),
                old(self).spec_count(id@) < u64::MAX,
                forall|j: int| 0 <= j < i ==> self.records@[j].id@ != id@,
            decreases n - i,
        {
            if str_eq(self.records[i].id.as_str(), id) {
                let ghost old_records = self.records@;
                proof {
                    lemma_count_in_first(old_records, i as int, id@);
                }
                let new_count = self.records[i].count + 1;
                let rec = &mut self.records[i];
                rec.count = new_count;
                proof {
                    assert(self.records@ =~= old_records.update(
                        i as int,
                        HistoryRecord { id: old_records[i as int].id, count: new_count },
                    ));
                    lemma_count_in_update(old_records, i as int, new_count, id@);
                    assert forall|other: Seq<char>| other != id@ implies count_in(
                        self.records@,
                        other,
                    ) == count_in(old_records, other) by {
                        lemma_count_in_update_other(old_records, i as int, new_count, other);
                    }
                }
                return ;
            }
            i = i + 1;
        }
        let ghost old_records = self.records@;
        proof {
            assert(!has_id(old_records, id@)) by {
                if has_id(old_records, id@) {
                    let w = choose|k: int|
                        0 <= k < old_records.len() && old_records[k].id@ == id@;
                    assert(old_records[w].id@ != id@);
                }
            }
            lemma_count_in_absent(old_records, id@);
        }
        self.records.push(HistoryRecord { id: id.to_owned(), count: 1 });
        proof {
            let added = self.records@.last();
            assert(self.records@ =~= old_records.push(added));
            assert(added.id@ == id@);
            lemma_count_in_snoc(old_records, added, id@);
            assert forall|other: Seq<char>| other != id@ implies count_in(self.records@, other)
                == count_in(old_records, other) by {
                lemma_count_in_snoc(old_records, added, other);
                if !has_id(old_records, other) {
                    lemma_count_in_absent(old_records, other);
                }
            }
        }
    }
}

/// The count of an id is the count of its first record.
proof fn lemma_count_in_first(records: Seq<HistoryRecord>, i: int, id: Seq<char>)
    requires
        0 <= i < records.len(),
        records[i].id@ == id,
        forall|j: int| 0 <= j < i ==> records[j].id@ != id,
    ensures
        count_in(records, id) == records[i].count,
    decreases i,
{
    if i > 0 {
        assert(records[0].id@ != id);
        assert(records.drop_first()[i - 1] == records[i]);
        assert(forall|j: int|
            0 <= j < i - 1 ==> records.drop_first()[j] == records[j + 1]);
        lemma_count_in_first(records.drop_first(), i - 1, id);
    }
}

/// Looking a missing id up yields zero.
proof fn lemma_count_in_absent(records: Seq<HistoryRecord>, id: Seq<char>)
    requires
        !has_id(records, id),
    ensures
        count_in(records, id) == 0,
    decreases records.len(),
{
    if records.len() > 0 {
        assert(records[0].id@ != id);
        assert(forall|i: int|
            0 <= i < records.drop_first().len() ==> records.drop_first()[i] == records[i + 1]);
        lemma_count_in_absent(records.drop_first(), id);
    }
}

/// Appending a record only affects the count of its own id, and only if
/// that id was absent before.
proof fn lemma_count_in_snoc(records: Seq<HistoryRecord>, r: HistoryRecord, id: Seq<char>)
    ensures
        count_in(records.push(r), id) == if has_id(records, id) {
            count_in(records, id)
        } else if r.id@ == id {
            r.count
        } else {
            0
        },
    decreases records.len(),
{
    if records.len() == 0 {
        assert(records.push(r)[0] == r);
        assert(records.push(r).drop_first() =~= Seq::<HistoryRecord>::empty());
        assert(count_in(Seq::<HistoryRecord>::empty(), id) == 0);
        assert(!has_id(records, id));
    } else {
        assert(records.push(r)[0] == records[0]);
        assert(records.push(r).drop_first() =~= records.drop_first().push(r));
        lemma_count_in_snoc(records.drop_first(), r, id);
        if records[0].id@ == id {
            assert(has_id(records, id));
        }
        if records[0].id@ != id {
            assert(has_id(records.drop_first(), id) == has_id(records, id)) by {
                if has_id(records, id) {
                    let w = choose|i: int|
                        0 <= i < records.len() && records[i].id@ == id;
                    assert(records.drop_first()[w - 1] == records[w]);
                }
                if has_id(records.drop_first(), id) {
                    let w = choose|i: int|
                        0 <= i < records.drop_first().len() && records.drop_first()[i].id@
                            == id;
                    assert(records[w + 1] == records.drop_first()[w]);
                }
            }
        }
    }
}

/// Updating the count of the record at `i` sets the count of its id,
/// provided no earlier record carries the same id.
proof fn lemma_count_in_update(records: Seq<HistoryRecord>, i: int, c: u64, id: Seq<char>)
    requires
        0 <= i < records.len(),
        records[i].id@ == id,
        forall|j: int| 0 <= j < i ==> records[j].id@ != id,
    ensures
        count_in(records.update(i, HistoryRecord { id: records[i].id, count: c }), id) == c,
    decreases i,
{
    let updated = records.update(i, HistoryRecord { id: records[i].id, count: c });
    if i == 0 {
        assert(updated[0].id@ == id);
    } else {
        assert(updated[0].id@ != id);
        assert(updated.drop_first() =~= records.drop_first().update(
            i - 1,
            HistoryRecord { id: records[i].id, count: c },
        ));
        assert(records.drop_first()[i - 1] == records[i]);
        assert(forall|j: int|
            0 <= j < i - 1 ==> records.drop_first()[j] == records[j + 1]);
        lemma_count_in_update(records.drop_first(), i - 1, c, id);
    }
}

/// Updating the count of one record leaves every other id's count alone.
proof fn lemma_count_in_update_other(records: Seq<HistoryRecord>, i: int, c: u64, other: Seq<char>)
    requires
        0 <= i < records.len(),
        records[i].id@ != other,
    ensures
        count_in(records.update(i, HistoryRecord { id: records[i].id, count: c }), other)
            == count_in(records, other),
    decreases i,
{
    let updated = records.update(i, HistoryRecord { id: records[i].id, count: c });
    if i == 0 {
        assert(updated[0].id@ == records[0].id@);
        assert(updated[0].id@ != other);
        assert(updated.drop_first() =~= records.drop_first());
    } else {
        assert(updated[0] == records[0]);
        if records[0].id@ != other {
            assert(updated.drop_first() =~= records.drop_first().update(
                i - 1,
                HistoryRecord { id: records[i].id, count: c },
            ));
            assert(records.drop_first()[i - 1] == records[i]);
            lemma_count_in_update_other(records.drop_first(), i - 1, c, other);
        }
    }
}

/// One line of the persisted form: the id, a tab, the decimal count, a
/// newline.
pub open spec fn record_line(id: Seq<char>, count: u64) -> Seq<char> {
    id + seq!['\t'] + dec_digits(count as nat) + seq!['\n']
}

/// The persisted form of a record sequence: one line per record, in order.
pub open spec fn serialize_spec(records: Seq<HistoryRecord>) -> Seq<char>
    decreases records.len(),
{
    if records.len() == 0 {
        Seq::empty()
    } else {
        record_line(records[0].id@, records[0].count) + serialize_spec(records.drop_first())
    }
}

/// The index of the first occurrence of `c` in `s`, or -1.
pub open spec fn find_in(s: Seq<char>, c: char) -> int
    decreases s.len(),
{
    if s.len() == 0 {
        -1
    } else if s[0] == c {
        0
    } else {
        let k = find_in(s.drop_first(), c);
        if k < 0 {
            -1
        } else {
            k + 1
        }
    }
}

/// What one line parses to: the id before the first tab and the decimal
/// count after it, if the line has that shape.
pub open spec fn parse_line_spec(l: Seq<char>) -> Option<(Seq<char>, u64)> {
    let t = find_in(l, '\t');
    if 0 <= t < l.len() {
        match parse_u64_spec(l.skip(t + 1)) {
            None => None,
            Some(n) => Some((l.subrange(0, t), n)),
        }
    } else {
        None
    }
}

/// What a persisted history parses to: the id and count of each
/// newline-terminated line, or nothing if any line is malformed or the
/// text does not end in a newline.
pub open spec fn parse_spec(s: Seq<char>) -> Option<Seq<(Seq<char>, u64)>>
    decreases s.len(),
{
    if s.len() == 0 {
        Some(Seq::empty())
    } else {
        let k = find_in(s, '\n');
        if 0 <= k < s.len() {
            match parse_line_spec(s.subrange(0, k)) {
                None => None,
                Some(rv) => match parse_spec(s.skip(k + 1)) {
                    None => None,
                    Some(rest) => Some(seq![rv] + rest),
                },
            }
        } else {
            None
        }
    }
}

/// The id and count of a record, as plain values.
pub open spec fn rec_view(r: HistoryRecord) -> (Seq<char>, u64) {
    (r.id@, r.count)
}

/// The ids and counts of a record sequence.
pub open spec fn recs_view(records: Seq<HistoryRecord>) -> Seq<(Seq<char>, u64)> {
    records.map_values(|r: HistoryRecord| rec_view(r))
}

/// No id occurs twice among parsed records.
pub open spec fn unique_ids(rs: Seq<(Seq<char>, u64)>) -> bool {
    forall|i: int, j: int| 0 <= i < j < rs.len() ==> rs[i].0 != rs[j].0
}

/// What loading a persisted history yields: the parsed records, if the
/// text parses and no id occurs twice.
pub open spec fn load_spec(s: Seq<char>) -> Option<Seq<(Seq<char>, u64)>> {
    match parse_spec(s) {
        None => None,
        Some(rs) => if unique_ids(rs) {
            Some(rs)
        } else {
            None
        },
    }
}

proof fn lemma_find_in_at(s: Seq<char>, c: char, k: int)
    requires
        0 <= k < s.len(),
        s[k] == c,
        forall|m: int| 0 <= m < k ==> s[m] != c,
    ensures
        find_in(s, c) == k,
    decreases k,
{
    if k > 0 {
        assert(forall|m: int|
            0 <= m < k - 1 ==> s.drop_first()[m] == s[m + 1] && s[m + 1] != c);
        assert(s.drop_first()[k - 1] == s[k]);
        lemma_find_in_at(s.drop_first(), c, k - 1);
    }
}

proof fn lemma_find_in_none(s: Seq<char>, c: char)
    requires
        forall|m: int| 0 <= m < s.len() ==> s[m] != c,
    ensures
        find_in(s, c) == -1,
    decreases s.len(),
{
    if s.len() > 0 {
        assert(forall|m: int|
            0 <= m < s.drop_first().len() ==> s.drop_first()[m] == s[m + 1]);
        lemma_find_in_none(s.drop_first(), c);
    }
}

proof fn lemma_serialize_snoc(records: Seq<HistoryRecord>, r: HistoryRecord)
    ensures
        serialize_spec(records.push(r)) == serialize_spec(records) + record_line(
            r.id@,
            r.count,
        ),
    decreases records.len(),
{
    if records.len() == 0 {
        assert(records.push(r)[0] == r);
        assert(records.push(r).drop_first() =~= Seq::<HistoryRecord>::empty());
        assert(serialize_spec(Seq::<HistoryRecord>::empty()) == Seq::<char>::empty());
        assert(serialize_spec(records.push(r)) =~= serialize_spec(records) + record_line(
            r.id@,
            r.count,
        ));
    } else {
        assert(records.push(r)[0] == records[0]);
        assert(records.push(r).drop_first() =~= records.drop_first().push(r));
        lemma_serialize_snoc(records.drop_first(), r);
        assert(serialize_spec(records.push(r)) =~= serialize_spec(records) + record_line(
            r.id@,
            r.count,
        ));
    }
}

impl History {
    /// The persisted text form of the history: one `id TAB count NEWLINE`
    /// line per record.
    pub fn serialize(&self) -> (r: String)
        ensures
            r@ == serialize_spec(self.records@),
    {
        let mut out: String = String::new();
        let n = self.records.len();
        let mut i: usize = 0;
        while i < n
            invariant
                i <= n,
                n == self.records@.len(),
                out@ == serialize_spec(self.records@.subrange(0, i as int)),
            decreases n - i,
        {
            let ghost prefix = self.records@.subrange(0, i as int);
            out.append(self.records[i].id.as_str());
            push_char(&mut out, '\t');
            let digits = u64_to_string(self.records[i].count);
            out.append(digits.as_str());
            push_char(&mut out, '\n');
            proof {
                lemma_serialize_snoc(prefix, self.records@[i as int]);
                assert(prefix.push(self.records@[i as int]) =~= self.records@.subrange(
                    0,
                    i + 1,
                ));
                assert(out@ =~= serialize_spec(prefix) + record_line(
                    self.records@[i as int].id@,
                    self.records@[i as int].count,
                ));
            }
            i = i + 1;
        }
        assert(self.records@.subrange(0, n as int) =~= self.records@);
        out
    }
}

/// Parse a persisted history.  Yields the store exactly when the text is a
/// sequence of well-formed `id TAB count NEWLINE` lines with pairwise
/// distinct ids; the parsed store carries exactly the parsed records.
pub fn parse_history(text: &str) -> (r: Option<History>)
    ensures
        match r {
            Some(h) => {
                &&& load_spec(text@) == Some(recs_view(h.records@))
                &&& h.wf()
            },
            None => load_spec(text@) is None,
        },
{
    let cs = str_chars(text);
    let n = cs.len();
    let mut records: Vec<HistoryRecord> = Vec::new();
    let mut i: usize = 0;
    proof {
        assert(cs@.skip(0) =~= cs@);
        assert(recs_view(records@) =~= Seq::<(Seq<char>, u64)>::empty());
        if parse_spec(cs@) is Some {
            assert(recs_view(records@) + parse_spec(cs@).unwrap() =~= parse_spec(
                cs@,
            ).unwrap());
        }
    }
    while i < n
        invariant
            i <= n,
            n == cs@.len(),
            cs@ == text@,
            forall|j: int| 0 <= j < records@.len() ==> valid_id(#[trigger] records@[j].id@),
            parse_spec(cs@) == match parse_spec(cs@.skip(i as int)) {
                None => None::<Seq<(Seq<char>, u64)>>,
                Some(rest) => Some(recs_view(records@) + rest),
            },
        decreases n - i,
    {
        let ghost tail = cs@.skip(i as int);
        // Find the end of the line.
        let mut j: usize = i;
        while j < n && cs[j] != '\n'
            invariant
                i <= j <= n,
                n == cs@.len(),
                forall|m: int| i <= m < j ==> cs@[m] != '\n',
            decreases n - j,
        {
            j = j + 1;
        }
        if j == n {
            proof {
                assert(forall|m: int| 0 <= m < tail.len() ==> tail[m] == cs@[m + i]);
                lemma_find_in_none(tail, '\n');
            }
            return None;
        }
        proof {
            assert(forall|m: int| 0 <= m < tail.len() ==> tail[m] == cs@[m + i]);
            lemma_find_in_at(tail, '\n', j - i);
            assert(tail.subrange(0, j - i) =~= cs@.subrange(i as int, j as int));
        }
        let ghost line = cs@.subrange(i as int, j as int);
        // Find the tab separating the id from the count.
        let mut k: usize = i;
        while k < j && cs[k] != '\t'
            invariant
                i <= k <= j <= n,
                n == cs@.len(),
                forall|m: int| i <= m < k ==> cs@[m] != '\t',
            decreases j - k,
        {
            k = k + 1;
        }
        proof {
            assert(forall|m: int| 0 <= m < line.len() ==> line[m] == cs@[m + i]);
            if k == j {
                lemma_find_in_none(line, '\t');
            } else {
                lemma_find_in_at(line, '\t', k - i);
            }
        }
        if k == j {
            return None;
        }
        match parse_u64_range(&cs, k + 1, j) {
            None => {
                proof {
                    assert(line.skip(k - i + 1) =~= cs@.subrange(k + 1, j as int));
                }
                return None;
            },
            Some(count) => {
                proof {
                    assert(line.skip(k - i + 1) =~= cs@.subrange(k + 1, j as int));
                    assert(line.subrange(0, k - i) =~= cs@.subrange(i as int, k as int));
                }
                let idv = subrange_vec(&cs, i, k);
                let id_str = chars_to_string(&idv);
                let ghost old_records = records@;
                records.push(HistoryRecord { id: id_str, count });
                proof {
                    let rv = (cs@.subrange(i as int, k as int), count);
                    assert(parse_line_spec(line) == Some(rv));
                    assert(valid_id(records@.last().id@)) by {
                        assert(forall|m: int|
                            0 <= m < k - i ==> line[m] != '\t' && line[m] != '\n');
                    }
                    assert(records@.drop_last() =~= old_records);
                    assert(recs_view(records@) =~= recs_view(old_records).push(rv));
                    assert(cs@.skip(i as int).skip(j - i + 1) =~= cs@.skip(j + 1));
                    assert forall|rest: Seq<(Seq<char>, u64)>|
                        recs_view(old_records) + (seq![rv] + rest) =~= recs_view(records@)
                            + rest by {}
                }
                i = j + 1;
            },
        }
    }
    proof {
        assert(cs@.skip(n as int) =~= Seq::<char>::empty());
        assert(parse_spec(cs@) == Some(recs_view(records@)));
    }
    // Reject files in which an id occurs twice.
    let m = records.len();
    let mut a: usize = 0;
    while a < m
        invariant
            a <= m,
            m == records@.len(),
            parse_spec(text@) == Some(recs_view(records@)),
            forall|x: int, y: int|
                0 <= x < y < records@.len() && x < a ==> records@[x].id@ != records@[y].id@,
        decreases m - a,
    {
        let mut b: usize = a + 1;
        while b < m
            invariant
                a < b <= m,
                m == records@.len(),
                parse_spec(text@) == Some(recs_view(records@)),
                forall|y: int| a < y < b ==> records@[a as int].id@ != records@[y].id@,
            decreases m - b,
        {
            if str_eq(records[a].id.as_str(), records[b].id.as_str()) {
                proof {
                    assert(recs_view(records@)[a as int].0 == recs_view(records@)[
                        b as int
                    ].0);
                }
                return None;
            }
            b = b + 1;
        }
        a = a + 1;
    }
    let h = History { records };
    proof {
        assert forall|x: int, y: int|
            0 <= x < y < h.records@.len() implies h.records@[x].id@ != h.records@[y].id@ by {}
        assert(unique_ids(recs_view(h.records@))) by {
            assert forall|x: int, y: int|
                0 <= x < y < recs_view(h.records@).len() implies recs_view(h.records@)[x].0
                    != recs_view(h.records@)[y].0 by {
                assert(recs_view(h.records@)[x].0 == h.records@[x].id@);
                assert(recs_view(h.records@)[y].0 == h.records@[y].id@);
            }
        }
    }
    Some(h)
}

/// Serializing a record sequence with storable ids and parsing the text
/// back yields exactly the ids and counts that were written.
pub proof fn lemma_parse_serialize(records: Seq<HistoryRecord>)
    requires
        forall|i: int| 0 <= i < records.len() ==> valid_id(#[trigger] records[i].id@),
    ensures
        parse_spec(serialize_spec(records)) == Some(recs_view(records)),
    decreases records.len(),
{
    if records.len() == 0 {
        assert(recs_view(records) =~= Seq::<(Seq<char>, u64)>::empty());
    } else {
        let r0 = records[0];
        let id = r0.id@;
        lemma_dec_digits_val(r0.count as nat);
        let digits = dec_digits(r0.count as nat);
        let line = record_line(id, r0.count);
        let rest = serialize_spec(records.drop_first());
        let full = serialize_spec(records);
        assert(full == line + rest);
        let k = id.len() as int + 1 + digits.len() as int;
        assert forall|m: int| 0 <= m < digits.len() implies digits[m] != '\n' && digits[m]
            != '\t' by {
            assert(is_digit(digits[m]));
        }
        assert(line.len() == k + 1);
        assert forall|m: int| 0 <= m < k implies full[m] != '\n' by {
            assert(full[m] == line[m]);
            if m < id.len() {
                assert(line[m] == id[m]);
            } else if m == id.len() {
                assert(line[m] == '\t');
            } else {
                assert(line[m] == digits[m - id.len() - 1]);
            }
        }
        assert(full[k] == line[k] && line[k] == '\n');
        lemma_find_in_at(full, '\n', k);
        let parsed_line = full.subrange(0, k);
        assert forall|m: int| 0 <= m < id.len() implies parsed_line[m] != '\t' by {
            assert(parsed_line[m] == id[m]);
        }
        assert(parsed_line[id.len() as int] == '\t');
        lemma_find_in_at(parsed_line, '\t', id.len() as int);
        assert(parsed_line.subrange(0, id.len() as int) =~= id);
        assert(parsed_line.skip(id.len() as int + 1) =~= digits);
        assert(parse_u64_spec(digits) == Some(r0.count));
        assert(parse_line_spec(parsed_line) == Some((id, r0.count)));
        assert(full.skip(k + 1) =~= rest);
        assert(forall|i: int|
            0 <= i < records.drop_first().len() ==> records.drop_first()[i] == records[i
                + 1]);
        lemma_parse_serialize(records.drop_first());
        assert(recs_view(records) =~= seq![(id, r0.count)] + recs_view(
            records.drop_first(),
        ));
    }
}

/// Two record sequences with the same ids and counts record the same
/// count for every id.
pub proof fn lemma_count_from_views(a: Seq<HistoryRecord>, b: Seq<HistoryRecord>, id: Seq<char>)
    requires
        recs_view(a) == recs_view(b),
    ensures
        count_in(a, id) == count_in(b, id),
    decreases a.len(),
{
    assert(recs_view(a).len() == a.len());
    assert(recs_view(b).len() == b.len());
    assert(a.len() == b.len());
    if a.len() > 0 {
        assert(recs_view(a)[0] == rec_view(a[0]));
        assert(recs_view(b)[0] == rec_view(b[0]));
        assert(a[0].id@ == b[0].id@ && a[0].count == b[0].count);
        assert(recs_view(a.drop_first()) =~= recs_view(b.drop_first())) by {
            assert forall|i: int|
                0 <= i < a.drop_first().len() implies recs_view(a.drop_first())[i]
                == recs_view(b.drop_first())[i] by {
                assert(recs_view(a.drop_first())[i] == rec_view(a.drop_first()[i]));
                assert(a.drop_first()[i] == a[i + 1]);
                assert(recs_view(b.drop_first())[i] == rec_view(b.drop_first()[i]));
                assert(b.drop_first()[i] == b[i + 1]);
                assert(recs_view(a)[i + 1] == rec_view(a[i + 1]));
                assert(recs_view(b)[i + 1] == rec_view(b[i + 1]));
            }
        }
        lemma_count_from_views(a.drop_first(), b.drop_first(), id);
    }
}

/// A history written to its persisted form and reloaded records the same
/// count for every id: together with `record_launch`, a launch leaves its
/// incremented counter readable after a reload.
pub proof fn lemma_persisted_counts_reload(h: History, reloaded: History, id: Seq<char>)
    requires
        h.wf(),
        load_spec(serialize_spec(h.records@)) == Some(recs_view(reloaded.records@)),
    ensures
        reloaded.spec_count(id) == h.spec_count(id),
{
    lemma_parse_serialize(h.records@);
    lemma_count_from_views(h.records@, reloaded.records@, id);
}

impl HistoryRecord {
    /// An identical copy of the record.
    pub fn duplicate(&self) -> (r: HistoryRecord)
        ensures
            r == *self,
    {
        HistoryRecord { id: self.id.clone(), count: self.count }
    }
}

/// Whether some string in `known` holds exactly the characters of `id`.
pub fn contains_str(known: &Vec<String>, id: &str) -> (r: bool)
    ensures
        r == known.deep_view().contains(id@),
{
    let n = known.len();
    let mut i: usize = 0;
    while i < n
        invariant
            i <= n,
            n == known@.len(),
            forall|j: int| 0 <= j < i ==> known.deep_view()[j] != id@,
        decreases n - i,
    {
        if str_eq(known[i].as_str(), id) {
            assert(known.deep_view()[i as int] == id@);
            return true;
        }
        i = i + 1;
    }
    proof {
        if known.deep_view().contains(id@) {
            let w = choose|j: int|
                0 <= j < known.deep_view().len() && known.deep_view()[j] == id@;
            assert(known.deep_view()[w] != id@);
        }
    }
    false
}

impl History {
    /// Drop every record whose id is not among the known ids: a pruned
    /// history records the old count for known ids and zero for all
    /// others, and keeps only records that were already present.
    pub fn prune(&mut self, known: &Vec<String>)
        requires
            old(self).wf(),
        ensures
            final(self).wf(),
            forall|id: Seq<char>|
                final(self).spec_count(id) == if known.deep_view().contains(id) {
                    old(self).spec_count(id)
                } else {
                    0
                },
            forall|i: int|
                0 <= i < final(self).records@.len() ==> old(self).records@.contains(
                    #[trigger] final(self).records@[i],
                ) && known.deep_view().contains(final(self).records@[i].id@),
    {
        let n = self.records.len();
        let mut out: Vec<HistoryRecord> = Vec::new();
        let mut i: usize = 0;
        proof {
            assert(self.records@.subrange(0, 0) =~= Seq::<HistoryRecord>::empty());
        }
        while i < n
            invariant
                i <= n,
                *self == *old(self),
                old(self).wf(),
                n == self.records@.len(),
                forall|a: int, b: int|
                    0 <= a < b < out@.len() ==> out@[a].id@ != out@[b].id@,
                forall|a: int| 0 <= a < out@.len() ==> valid_id(#[trigger] out@[a].id@),
                forall|a: int|
                    0 <= a < out@.len() ==> self.records@.contains(#[trigger] out@[a])
                        && known.deep_view().contains(out@[a].id@),
                forall|id: Seq<char>|
                    #[trigger] count_in(out@, id) == if known.deep_view().contains(id) {
                        count_in(self.records@.subrange(0, i as int), id)
                    } else {
                        0u64
                    },
                forall|id: Seq<char>|
                    has_id(out@, id) ==> has_id(
                        self.records@.subrange(0, i as int),
                        id,
                    ),
            decreases n - i,
        {
            let ghost prefix = self.records@.subrange(0, i as int);
            let ghost rec = self.records@[i as int];
            let keep = contains_str(known, self.records[i].id.as_str());
            if keep {
                proof {
                    assert(!has_id(out@, rec.id@)) by {
                        if has_id(out@, rec.id@) {
                            assert(has_id(prefix, rec.id@));
                            let w = choose|m: int|
                                0 <= m < prefix.len() && prefix[m].id@ == rec.id@;
                            assert(self.records@[w].id@ == self.records@[i as int].id@);
                        }
                    }
                    lemma_count_in_absent(out@, rec.id@);
                }
                let copied = self.records[i].duplicate();
                let ghost old_out = out@;
                out.push(copied);
                proof {
                    assert(out@.drop_last() =~= old_out);
                    assert(out@.last() == rec);
                    assert(self.records@.contains(rec)) by {
                        assert(self.records@[i as int] == rec);
                    }
                    assert forall|id: Seq<char>| #[trigger] count_in(out@, id) == (
                    if known.deep_view().contains(id) {
                        count_in(self.records@.subrange(0, i + 1), id)
                    } else {
                        0u64
                    }) by {
                        lemma_count_in_snoc(old_out, rec, id);
                        lemma_count_in_snoc(prefix, rec, id);
                        assert(prefix.push(rec) =~= self.records@.subrange(0, i + 1));
                        if !has_id(prefix, id) {
                            lemma_count_in_absent(prefix, id);
                        }
                        if !has_id(old_out, id) {
                            lemma_count_in_absent(old_out, id);
                        }
                        if has_id(old_out, id) && !has_id(prefix, id) {
                            lemma_count_in_absent(prefix, id);
                        }
                    }
                    assert forall|id: Seq<char>| has_id(out@, id) implies has_id(
                        self.records@.subrange(0, i + 1),
                        id,
                    ) by {
                        let w = choose|m: int|
                            0 <= m < out@.len() && out@[m].id@ == id;
                        if w < old_out.len() {
                            assert(has_id(old_out, id));
                            let v = choose|m: int|
                                0 <= m < prefix.len() && prefix[m].id@ == id;
                            assert(self.records@.subrange(0, i + 1)[v].id@ == id);
                        } else {
                            assert(self.records@.subrange(0, i + 1)[i as int].id@ == id);
                        }
                    }
                }
            } else {
                proof {
                    assert(!known.deep_view().contains(rec.id@));
                    assert forall|id: Seq<char>| #[trigger] count_in(out@, id) == (
                    if known.deep_view().contains(id) {
                        count_in(self.records@.subrange(0, i + 1), id)
                    } else {
                        0u64
                    }) by {
                        lemma_count_in_snoc(prefix, rec, id);
                        assert(prefix.push(rec) =~= self.records@.subrange(0, i + 1));
                        if !has_id(prefix, id) {
                            lemma_count_in_absent(prefix, id);
                        }
                    }
                    assert forall|id: Seq<char>| has_id(out@, id) implies has_id(
                        self.records@.subrange(0, i + 1),
                        id,
                    ) by {
                        let v = choose|m: int|
                            0 <= m < prefix.len() && prefix[m].id@ == id;
                        assert(self.records@.subrange(0, i + 1)[v].id@ == id);
                    }
                }
            }
            i = i + 1;
        }
        proof {
            assert(self.records@.subrange(0, n as int) =~= self.records@);
        }
        self.records = out;
    }
}

} // verus!
