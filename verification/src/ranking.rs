//! The ranking engine: on every query change each entry's visibility and
//! order key are recomputed from a fuzzy match of the query against the
//! entry's name and keywords; entries are then compared by display class,
//! match score, history weight and name.

use vstd::prelude::*;
use crate::command::is_command;
use crate::config::Config;
use crate::entry::Entry;
use crate::text::{chars_lex_cmp, lemma_lex_trichotomy, lex_lt, str_chars};
use vstd::string::StringExecFns;
use fuzzy_matcher::FuzzyMatcher;

verus! {

/// The score that the fuzzy subsequence matcher, with its default
/// settings, gives the query `pattern` against the candidate text
/// `choice`; nothing when `pattern` is no (case-smart) subsequence of
/// `choice`.
pub uninterp spec fn fuzzy_score(choice: Seq<char>, pattern: Seq<char>) -> Option<i64>;

/// Relies on fuzzy_matcher's `SkimMatcherV2` with default settings: the
/// scoring is a deterministic function of the candidate and the pattern
/// alone, and yields nothing exactly when the pattern is no subsequence
/// of the candidate under its case folding.
#[verifier::external_body]
fn skim_fuzzy_match(choice: &str, pattern: &str) -> (r: Option<i64>)
    ensures
        r == fuzzy_score(choice@, pattern@),
{
    fuzzy_matcher::skim::SkimMatcherV2::default().fuzzy_match(choice, pattern)
}

/// The text an entry is matched against: its display name followed by
/// its search keywords.
pub open spec fn matched_text(e: Entry) -> Seq<char> {
    e.display_name@ + e.search_keywords@
}

/// The state of an entry after a ranking pass with the given query:
/// hidden in command mode, hidden when the query does not match,
/// otherwise visible with the match score as its order key.  Nothing else
/// about the entry changes.
pub open spec fn match_step(e: Entry, query: Seq<char>, prefix: Seq<char>) -> Entry {
    if is_command(query, prefix) {
        Entry { hidden: true, ..e }
    } else {
        match fuzzy_score(matched_text(e), query) {
            None => Entry { hidden: true, ..e },
            Some(s) => Entry { hidden: false, match_score: s, ..e },
        }
    }
}

impl Entry {
    /// Recompute this entry's visibility and order key for `query`.  In
    /// command mode every entry is hidden, whatever the query holds;
    /// otherwise the entry is hidden exactly when the query is no fuzzy
    /// match for its name and keywords.
    pub fn update_match(&mut self, query: &str, config: &Config)
        ensures
            *final(self) == match_step(*old(self), query@, config.command_prefix@),
            is_command(query@, config.command_prefix@) ==> final(self).hidden,
    {
        if crate::command::is_cmd(query, config.command_prefix.as_str()) {
            self.hidden = true;
            return ;
        }
        let mut text = self.display_name.clone();
        text.append(self.search_keywords.as_str());
        match skim_fuzzy_match(text.as_str(), query) {
            None => {
                self.hidden = true;
            },
            Some(score) => {
                self.hidden = false;
                self.match_score = score;
            },
        }
    }
}

/// A ranking pass is idempotent: ranking an already ranked entry with
/// the same query and configuration changes nothing further.
pub proof fn lemma_update_match_idempotent(e: Entry, query: Seq<char>, prefix: Seq<char>)
    ensures
        match_step(match_step(e, query, prefix), query, prefix) == match_step(
            e,
            query,
            prefix,
        ),
{
}

/// The strict order in which entries are shown: running-window entries
/// first, then higher match scores, then higher history weights, and
/// finally names in lexicographic order.
pub open spec fn entry_before(a: Entry, b: Entry) -> bool {
    if a.display_flag != b.display_flag {
        a.display_flag
    } else if a.match_score != b.match_score {
        a.match_score > b.match_score
    } else if a.history_weight != b.history_weight {
        a.history_weight > b.history_weight
    } else {
        lex_lt(a.display_name@, b.display_name@)
    }
}

/// The sort keys of the two entries are the same: same display class,
/// score, history weight and name.
pub open spec fn same_rank(a: Entry, b: Entry) -> bool {
    &&& a.display_flag == b.display_flag
    &&& a.match_score == b.match_score
    &&& a.history_weight == b.history_weight
    &&& a.display_name@ == b.display_name@
}

/// Three-way comparison for the presentation layer's sort: negative when
/// `a` comes first, positive when `b` comes first, zero when the sort
/// keys coincide.
pub fn compare(a: &Entry, b: &Entry) -> (r: i32)
    ensures
        -1 <= r <= 1,
        (r == -1) == entry_before(*a, *b),
        (r == 1) == entry_before(*b, *a),
        (r == 0) == same_rank(*a, *b),
{
    proof {
        lemma_lex_trichotomy(a.display_name@, b.display_name@);
    }
    if a.display_flag != b.display_flag {
        if a.display_flag {
            -1
        } else {
            1
        }
    } else if a.match_score != b.match_score {
        if a.match_score > b.match_score {
            -1
        } else {
            1
        }
    } else if a.history_weight != b.history_weight {
        if a.history_weight > b.history_weight {
            -1
        } else {
            1
        }
    } else {
        let an = str_chars(a.display_name.as_str());
        let bn = str_chars(b.display_name.as_str());
        chars_lex_cmp(&an, &bn)
    }
}

/// Of two entries, exactly one of `entry_before(a, b)`,
/// `entry_before(b, a)` and `same_rank(a, b)` holds: the comparison is a
/// strict total order on sort keys.
pub proof fn lemma_entry_order_total(a: Entry, b: Entry)
    ensures
        entry_before(a, b) || entry_before(b, a) || same_rank(a, b),
        entry_before(a, b) ==> !entry_before(b, a) && !same_rank(a, b),
        entry_before(b, a) ==> !entry_before(a, b) && !same_rank(a, b),
        same_rank(a, b) ==> !entry_before(a, b) && !entry_before(b, a),
{
    lemma_lex_trichotomy(a.display_name@, b.display_name@);
}

/// The order is transitive.
pub proof fn lemma_entry_order_trans(a: Entry, b: Entry, c: Entry)
    requires
        entry_before(a, b),
        entry_before(b, c),
    ensures
        entry_before(a, c),
{
    lemma_lex_trichotomy(a.display_name@, b.display_name@);
    lemma_lex_trichotomy(b.display_name@, c.display_name@);
    lemma_lex_trichotomy(a.display_name@, c.display_name@);
    if a.display_flag == b.display_flag && b.display_flag == c.display_flag
        && a.match_score == b.match_score && b.match_score == c.match_score
        && a.history_weight == b.history_weight && b.history_weight == c.history_weight {
        lemma_lex_lt_trans(a.display_name@, b.display_name@, c.display_name@);
    }
}

proof fn lemma_lex_lt_trans(a: Seq<char>, b: Seq<char>, c: Seq<char>)
    requires
        lex_lt(a, b),
        lex_lt(b, c),
    ensures
        lex_lt(a, c),
    decreases a.len(),
{
    if a.len() > 0 && b.len() > 0 && c.len() > 0 {
        if a[0] == b[0] && b[0] == c[0] {
            lemma_lex_lt_trans(a.drop_first(), b.drop_first(), c.drop_first());
        }
    }
}

/// The index of the entry shown first: a visible entry that no other
/// visible entry precedes, and the earliest such entry where sort keys
/// tie.  Nothing when every entry is hidden.
pub fn top_index(entries: &Vec<Entry>) -> (r: Option<usize>)
    ensures
        match r {
            Some(i) => {
                &&& i < entries@.len()
                &&& !entries@[i as int].hidden
                &&& forall|j: int|
                    0 <= j < entries@.len() && !(#[trigger] entries@[j]).hidden
                        ==> !entry_before(entries@[j], entries@[i as int])
                &&& forall|j: int|
                    0 <= j < i && !(#[trigger] entries@[j]).hidden ==> entry_before(
                        entries@[i as int],
                        entries@[j],
                    )
            },
            None => forall|j: int|
                0 <= j < entries@.len() ==> (#[trigger] entries@[j]).hidden,
        },
{
    let n = entries.len();
    let mut best: Option<usize> = None;
    let mut j: usize = 0;
    while j < n
        invariant
            j <= n,
            n == entries@.len(),
            match best {
                Some(b) => {
                    &&& b < j
                    &&& !entries@[b as int].hidden
                    &&& forall|k: int|
                        0 <= k < j && !(#[trigger] entries@[k]).hidden ==> !entry_before(
                            entries@[k],
                            entries@[b as int],
                        )
                    &&& forall|k: int|
                        0 <= k < b && !(#[trigger] entries@[k]).hidden ==> entry_before(
                            entries@[b as int],
                            entries@[k],
                        )
                },
                None => forall|k: int| 0 <= k < j ==> (#[trigger] entries@[k]).hidden,
            },
        decreases n - j,
    {
        if !entries[j].hidden {
            match best {
                None => {
                    proof {
                        lemma_entry_order_total(entries@[j as int], entries@[j as int]);
                    }
                    best = Some(j);
                },
                Some(b) => {
                    let c = compare(&entries[j], &entries[b]);
                    if c < 0 {
                        proof {
                            let ghost eb = entries@[b as int];
                            let ghost ej = entries@[j as int];
                            lemma_entry_order_total(ej, ej);
                            assert forall|k: int|
                                0 <= k < j && !(#[trigger] entries@[k]).hidden implies
                                !entry_before(entries@[k], ej) && entry_before(
                                ej,
                                entries@[k],
                            ) by {
                                let ek = entries@[k];
                                if entry_before(ek, ej) {
                                    lemma_entry_order_trans(ek, ej, eb);
                                }
                                lemma_entry_order_total(ej, ek);
                                if same_rank(ej, ek) {
                                    lemma_same_rank_same_order(ej, ek, eb);
                                }
                            }
                        }
                        best = Some(j);
                    } else {
                        proof {
                            lemma_entry_order_total(
                                entries@[j as int],
                                entries@[b as int],
                            );
                        }
                    }
                },
            }
        }
        j = j + 1;
    }
    best
}

/// Entries with the same sort keys stand in the same order relation to
/// every third entry.
proof fn lemma_same_rank_same_order(a: Entry, b: Entry, c: Entry)
    requires
        same_rank(a, b),
    ensures
        entry_before(a, c) == entry_before(b, c),
        entry_before(c, a) == entry_before(c, b),
{
}

/// The entry a row list position refers to.
pub open spec fn row_entry(entries: Seq<Entry>, rows: Seq<usize>, a: int) -> Entry {
    entries[rows[a] as int]
}

/// Every row index refers to a visible entry.
pub open spec fn rows_valid(entries: Seq<Entry>, rows: Seq<usize>) -> bool {
    forall|a: int|
        0 <= a < rows.len() ==> (#[trigger] rows[a]) < entries.len()
            && !entries[rows[a] as int].hidden
}

/// No row index occurs twice.
pub open spec fn rows_distinct(rows: Seq<usize>) -> bool {
    forall|a: int, b: int| 0 <= a < b < rows.len() ==> rows[a] != rows[b]
}

/// No later row's entry precedes an earlier row's entry.
pub open spec fn rows_sorted(entries: Seq<Entry>, rows: Seq<usize>) -> bool {
    forall|a: int, b: int|
        0 <= a < b < rows.len() ==> !entry_before(
            #[trigger] row_entry(entries, rows, b),
            #[trigger] row_entry(entries, rows, a),
        )
}

/// The indices of the visible entries in display order: each exactly
/// once, arranged so that no later row precedes an earlier one under
/// the entry order.
pub fn ranked_rows(entries: &Vec<Entry>) -> (r: Vec<usize>)
    ensures
        rows_valid(entries@, r@),
        rows_distinct(r@),
        rows_sorted(entries@, r@),
        forall|k: int|
            0 <= k < entries@.len() && !(#[trigger] entries@[k]).hidden ==> r@.contains(
                k as usize,
            ),
{
    let n = entries.len();
    let mut remaining: Vec<usize> = Vec::new();
    let mut k: usize = 0;
    while k < n
        invariant
            k <= n,
            n == entries@.len(),
            rows_valid(entries@, remaining@),
            forall|a: int| 0 <= a < remaining@.len() ==> #[trigger] remaining@[a] < k,
            forall|a: int, b: int|
                0 <= a < b < remaining@.len() ==> remaining@[a] < remaining@[b],
            forall|j: int|
                0 <= j < k && !(#[trigger] entries@[j]).hidden ==> remaining@.contains(
                    j as usize,
                ),
        decreases n - k,
    {
        if !entries[k].hidden {
            let ghost old_remaining = remaining@;
            remaining.push(k);
            proof {
                assert(remaining@.last() == k as usize);
                assert forall|j: int|
                    0 <= j < k + 1 && !(#[trigger] entries@[j]).hidden implies
                    remaining@.contains(j as usize) by {
                    if j < k {
                        let w = choose|w: int|
                            0 <= w < old_remaining.len() && old_remaining[w] == j as usize;
                        assert(remaining@[w] == j as usize);
                    } else {
                        assert(remaining@[remaining@.len() - 1] == j as usize);
                    }
                }
            }
        }
        k = k + 1;
    }
    let mut out: Vec<usize> = Vec::new();
    while remaining.len() > 0
        invariant
            n == entries@.len(),
            rows_valid(entries@, out@),
            rows_valid(entries@, remaining@),
            rows_distinct(out@),
            rows_distinct(remaining@),
            rows_sorted(entries@, out@),
            forall|a: int, b: int|
                0 <= a < out@.len() && 0 <= b < remaining@.len() ==> #[trigger] out@[a]
                    != #[trigger] remaining@[b],
            forall|a: int, b: int|
                0 <= a < out@.len() && 0 <= b < remaining@.len() ==> !entry_before(
                    entries@[#[trigger] remaining@[b] as int],
                    entries@[#[trigger] out@[a] as int],
                ),
            forall|j: int|
                0 <= j < n && !(#[trigger] entries@[j]).hidden ==> out@.contains(j as usize)
                    || remaining@.contains(j as usize),
        decreases remaining@.len(),
    {
        // The first minimal element among the remaining rows.
        proof {
            lemma_entry_order_total(
                entries@[remaining@[0] as int],
                entries@[remaining@[0] as int],
            );
        }
        let mut mi: usize = 0;
        let mut m: usize = 1;
        while m < remaining.len()
            invariant
                mi < m <= remaining@.len(),
                n == entries@.len(),
                rows_valid(entries@, remaining@),
                forall|j: int|
                    0 <= j < m ==> !entry_before(
                        entries@[#[trigger] remaining@[j] as int],
                        entries@[remaining@[mi as int] as int],
                    ),
            decreases remaining@.len() - m,
        {
            let c = compare(&entries[remaining[m]], &entries[remaining[mi]]);
            if c < 0 {
                proof {
                    let ghost em = entries@[remaining@[m as int] as int];
                    let ghost emi = entries@[remaining@[mi as int] as int];
                    lemma_entry_order_total(em, em);
                    assert forall|j: int| 0 <= j < m + 1 implies !entry_before(
                        entries@[#[trigger] remaining@[j] as int],
                        em,
                    ) by {
                        let ej = entries@[remaining@[j] as int];
                        if entry_before(ej, em) {
                            lemma_entry_order_trans(ej, em, emi);
                        }
                    }
                }
                mi = m;
            }
            m = m + 1;
        }
        let ghost old_remaining = remaining@;
        let ghost old_out = out@;
        let chosen = remaining.remove(mi);
        out.push(chosen);
        proof {
            assert(out@.drop_last() =~= old_out);
            assert(out@.last() == chosen);
            assert(chosen == old_remaining[mi as int]);
            assert(rows_sorted(entries@, out@)) by {
                assert forall|a: int, b: int| 0 <= a < b < out@.len() implies !entry_before(
                    row_entry(entries@, out@, b),
                    row_entry(entries@, out@, a),
                ) by {
                    assert(out@[a] == old_out[a]);
                    if b < out@.len() - 1 {
                        assert(out@[b] == old_out[b]);
                        assert(!entry_before(
                            row_entry(entries@, old_out, b),
                            row_entry(entries@, old_out, a),
                        ));
                    } else {
                        assert(out@[b] == old_remaining[mi as int]);
                        assert(!entry_before(
                            entries@[old_remaining[mi as int] as int],
                            entries@[old_out[a] as int],
                        ));
                    }
                }
            }
            assert(remaining@ =~= old_remaining.remove(mi as int));
            assert(forall|b: int|
                0 <= b < remaining@.len() ==> #[trigger] remaining@[b] == (if b < mi {
                    old_remaining[b]
                } else {
                    old_remaining[b + 1]
                }));
            assert forall|j: int|
                0 <= j < n && !(#[trigger] entries@[j]).hidden implies out@.contains(
                j as usize,
            ) || remaining@.contains(j as usize) by {
                if old_out.contains(j as usize) {
                    let w = choose|w: int|
                        0 <= w < old_out.len() && old_out[w] == j as usize;
                    assert(out@[w] == j as usize);
                } else {
                    let w = choose|w: int|
                        0 <= w < old_remaining.len() && old_remaining[w] == j as usize;
                    if w == mi {
                        assert(out@[out@.len() - 1] == j as usize);
                    } else if w < mi {
                        assert(remaining@[w] == j as usize);
                    } else {
                        assert(remaining@[w - 1] == j as usize);
                    }
                }
            }
        }
    }
    proof {
        assert forall|k2: int|
            0 <= k2 < entries@.len() && !(#[trigger] entries@[k2]).hidden implies
            out@.contains(k2 as usize) by {}
    }
    out
}

/// Among entries of the same display class with the same match score,
/// the one launched more often in the past comes first: history is the
/// tie-break, never the primary key.
pub proof fn lemma_history_tiebreak(a: Entry, b: Entry)
    requires
        a.display_flag == b.display_flag,
        a.match_score == b.match_score,
        a.history_weight > b.history_weight,
    ensures
        entry_before(a, b),
{
}

/// In command mode every entry is hidden after a ranking pass, whatever
/// the query's remaining text and the entry's own state.
pub proof fn lemma_command_mode_hides_all(e: Entry, query: Seq<char>, prefix: Seq<char>)
    requires
        is_command(query, prefix),
    ensures
        match_step(e, query, prefix).hidden,
{
}

} // verus!
