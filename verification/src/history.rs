//! The recency ledger: a bounded mapping from window identity to the time it
//! was last visited.
//!
//! An identity is the canonical string `session:index`. The ledger lives in
//! memory as a list of unique-keyed entries in insertion order; its persisted
//! form is one `identity<TAB>timestamp` line per entry, ordered by descending
//! timestamp and capped at [`LEDGER_CAPACITY`] entries. Reading and writing
//! the file itself is the caller's business: this module turns file text into
//! a ledger and a ledger into file text, exactly.

use vstd::prelude::*;

use crate::order::sort_desc;
use crate::text::{spec_split, spec_join, spec_lines, spec_parse_u64, dec_digits, sep_free,
    split_char, lines_of, parse_u64, fmt_u64, str_eq, push_char};

verus! {

/// How many entries a saved ledger may hold.
pub const LEDGER_CAPACITY: usize = 100;

/// The canonical identity of a window: `session`, `:`, the decimal index.
pub open spec fn canon_id(session: Seq<char>, index: u32) -> Seq<char> {
    session + seq![':'] + dec_digits(index as nat)
}

/// Builds the canonical identity key.
pub fn canon_key(session: &str, index: u32) -> (r: String)
    ensures
        r@ == canon_id(session@, index),
{
    let mut r = session.to_owned();
    push_char(&mut r, ':');
    let digits = fmt_u64(index as u64);
    r.append(digits.as_str());
    proof {
        assert(session@.push(':') + dec_digits(index as nat) =~= canon_id(session@, index));
    }
    r
}

/// The first entry keyed `k`, if any.
pub open spec fn spec_lookup(s: Seq<(Seq<char>, u64)>, k: Seq<char>) -> Option<u64>
    decreases s.len(),
{
    if s.len() == 0 {
        None
    } else if s[0].0 == k {
        Some(s[0].1)
    } else {
        spec_lookup(s.drop_first(), k)
    }
}

/// `s` with `k` set to `t`: overwritten in place if present, appended if not.
pub open spec fn spec_record(s: Seq<(Seq<char>, u64)>, k: Seq<char>, t: u64) -> Seq<
    (Seq<char>, u64),
>
    decreases s.len(),
{
    if s.len() == 0 {
        seq![(k, t)]
    } else if s[0].0 == k {
        seq![(k, t)] + s.drop_first()
    } else {
        seq![s[0]] + spec_record(s.drop_first(), k, t)
    }
}

/// No two entries share a key.
pub open spec fn unique_keys(s: Seq<(Seq<char>, u64)>) -> bool {
    forall|i: int, j: int| 0 <= i < j < s.len() ==> s[i].0 != s[j].0
}

/// Every key can stand on one line of the ledger file.
pub open spec fn keys_wf(s: Seq<(Seq<char>, u64)>) -> bool {
    forall|i: int|
        0 <= i < s.len() ==> sep_free(#[trigger] s[i].0, '\t') && sep_free(s[i].0, '\n')
}

/// Recording keeps keys unique, answers later lookups, and leaves every
/// other key alone.
pub proof fn lemma_record(s: Seq<(Seq<char>, u64)>, k: Seq<char>, t: u64)
    requires
        unique_keys(s),
    ensures
        unique_keys(spec_record(s, k, t)),
        spec_lookup(spec_record(s, k, t), k) == Some(t),
        forall|k2: Seq<char>|
            k2 != k ==> #[trigger] spec_lookup(spec_record(s, k, t), k2) == spec_lookup(s, k2),
        spec_lookup(s, k) is Some ==> spec_record(s, k, t).len() == s.len(),
        spec_lookup(s, k) is None ==> spec_record(s, k, t).len() == s.len() + 1,
        forall|i: int|
            0 <= i < spec_record(s, k, t).len() ==> (#[trigger] spec_record(s, k, t)[i].0 == k
                || exists|j: int| 0 <= j < s.len() && spec_record(s, k, t)[i].0 == #[trigger] s[j].0),
    decreases s.len(),
{
    let r = spec_record(s, k, t);
    if s.len() == 0 {
        assert(r =~= seq![(k, t)]);
        assert(r[0].0 == k);
        assert(r.drop_first() =~= Seq::<(Seq<char>, u64)>::empty());
        assert forall|k2: Seq<char>| k2 != k implies #[trigger] spec_lookup(r, k2) == spec_lookup(
            s,
            k2,
        ) by {
            assert(spec_lookup(r.drop_first(), k2) == None::<u64>);
        }
    } else if s[0].0 == k {
        assert(r == seq![(k, t)] + s.drop_first());
        assert(r.drop_first() =~= s.drop_first());
        assert(r[0] == (k, t));
        assert forall|i: int, j: int| 0 <= i < j < r.len() implies r[i].0 != r[j].0 by {
            if i == 0 {
                assert(r[j] == s[j]);
                assert(s[0].0 != s[j].0);
            } else {
                assert(r[i] == s[i] && r[j] == s[j]);
            }
        }
        assert forall|k2: Seq<char>| k2 != k implies #[trigger] spec_lookup(r, k2) == spec_lookup(
            s,
            k2,
        ) by {
            assert(spec_lookup(r, k2) == spec_lookup(r.drop_first(), k2));
            assert(spec_lookup(s, k2) == spec_lookup(s.drop_first(), k2));
        }
        assert forall|i: int| 0 <= i < r.len() implies (#[trigger] r[i].0 == k || exists|j: int|
            0 <= j < s.len() && r[i].0 == #[trigger] s[j].0) by {
            if i > 0 {
                assert(r[i].0 == s[i].0);
            }
        }
    } else {
        let s2 = s.drop_first();
        assert(forall|i: int, j: int| 0 <= i < j < s2.len() ==> s2[i].0 != s2[j].0);
        lemma_record(s2, k, t);
        let r2 = spec_record(s2, k, t);
        assert(r == seq![s[0]] + r2);
        assert(r.drop_first() =~= r2);
        assert(r[0] == s[0]);
        assert forall|i: int, j: int| 0 <= i < j < r.len() implies r[i].0 != r[j].0 by {
            if i == 0 {
                assert(r[j].0 == r2[j - 1].0);
                if r2[j - 1].0 == k {
                } else {
                    let w = choose|w: int| 0 <= w < s2.len() && r2[j - 1].0 == s2[w].0;
                    assert(s[0].0 != s2[w].0);
                }
            } else {
                assert(r[i].0 == r2[i - 1].0 && r[j].0 == r2[j - 1].0);
            }
        }
        assert(spec_lookup(r, k) == spec_lookup(r2, k));
        assert forall|k2: Seq<char>| k2 != k implies #[trigger] spec_lookup(r, k2) == spec_lookup(
            s,
            k2,
        ) by {
            assert(spec_lookup(r, k2) == if r[0].0 == k2 {
                Some(r[0].1)
            } else {
                spec_lookup(r2, k2)
            });
        }
        assert forall|i: int| 0 <= i < r.len() implies (#[trigger] r[i].0 == k || exists|j: int|
            0 <= j < s.len() && r[i].0 == #[trigger] s[j].0) by {
            if i == 0 {
                assert(r[0].0 == s[0].0);
            } else {
                assert(r[i] == r2[i - 1]);
                if r2[i - 1].0 == k {
                } else {
                    let w = choose|w: int| 0 <= w < s2.len() && r2[i - 1].0 == s2[w].0;
                    assert(s2[w].0 == s[w + 1].0);
                }
            }
        }
    }
}

/// Recording with format-safe inputs keeps every key format-safe.
pub proof fn lemma_record_keys_wf(s: Seq<(Seq<char>, u64)>, k: Seq<char>, t: u64)
    requires
        keys_wf(s),
        sep_free(k, '\t'),
        sep_free(k, '\n'),
    ensures
        keys_wf(spec_record(s, k, t)),
    decreases s.len(),
{
    let r = spec_record(s, k, t);
    if s.len() == 0 {
        assert(r =~= seq![(k, t)]);
    } else if s[0].0 == k {
        assert forall|i: int|
            0 <= i < r.len() implies sep_free(#[trigger] r[i].0, '\t') && sep_free(
            r[i].0,
            '\n',
        ) by {
            if i > 0 {
                assert(r[i] == s[i]);
            }
        }
    } else {
        assert(forall|i: int|
            0 <= i < s.drop_first().len() ==> sep_free(#[trigger] s.drop_first()[i].0, '\t')
                && sep_free(s.drop_first()[i].0, '\n'));
        lemma_record_keys_wf(s.drop_first(), k, t);
        let r2 = spec_record(s.drop_first(), k, t);
        assert forall|i: int|
            0 <= i < r.len() implies sep_free(#[trigger] r[i].0, '\t') && sep_free(
            r[i].0,
            '\n',
        ) by {
            if i == 0 {
                assert(r[0] == s[0]);
            } else {
                assert(r[i] == r2[i - 1]);
            }
        }
    }
}

/// A canonical key holds no tab and no newline when its session name holds
/// none.
pub proof fn lemma_canon_id_sep_free(session: Seq<char>, index: u32)
    requires
        sep_free(session, '\t'),
        sep_free(session, '\n'),
    ensures
        sep_free(canon_id(session, index), '\t'),
        sep_free(canon_id(session, index), '\n'),
{
    let k = canon_id(session, index);
    let d = dec_digits(index as nat);
    crate::text::lemma_dec_digits_val(index as nat);
    assert forall|i: int| 0 <= i < k.len() implies k[i] != '\t' && k[i] != '\n' by {
        if i < session.len() {
            assert(k[i] == session[i]);
        } else if i == session.len() {
            assert(k[i] == ':');
            assert(':' as u32 == 58);
        } else {
            assert(k[i] == d[i - session.len() - 1]);
            assert(crate::text::is_digit_char(d[i - session.len() - 1]));
            assert('\t' as u32 == 9 && '\n' as u32 == 10);
        }
    }
}

/// One parsed ledger line: tab-separated identity and timestamp.
pub open spec fn spec_parse_entry(line: Seq<char>) -> Option<(Seq<char>, u64)> {
    let parts = spec_split(line, '\t');
    if parts.len() == 2 && spec_parse_u64(parts[1]) is Some {
        Some((parts[0], spec_parse_u64(parts[1]) -> 0))
    } else {
        None
    }
}

/// One line folded into the ledger: malformed lines change nothing.
pub open spec fn spec_apply_line(s: Seq<(Seq<char>, u64)>, line: Seq<char>) -> Seq<
    (Seq<char>, u64),
> {
    match spec_parse_entry(line) {
        Some(e) => spec_record(s, e.0, e.1),
        None => s,
    }
}

/// All lines folded in, first to last.
pub open spec fn spec_load_lines(s: Seq<(Seq<char>, u64)>, lines: Seq<Seq<char>>) -> Seq<
    (Seq<char>, u64),
>
    decreases lines.len(),
{
    if lines.len() == 0 {
        s
    } else {
        spec_load_lines(spec_apply_line(s, lines[0]), lines.drop_first())
    }
}

/// The persisted form of one entry.
pub open spec fn spec_entry_line(e: (Seq<char>, u64)) -> Seq<char> {
    e.0 + seq!['\t'] + dec_digits(e.1 as nat)
}

/// The entries a save writes: descending by timestamp, capped.
pub open spec fn spec_saved_entries(v: Seq<(Seq<char>, u64)>) -> Seq<(Seq<char>, u64)> {
    let sorted = sort_desc(v);
    if sorted.len() > LEDGER_CAPACITY as int {
        sorted.take(LEDGER_CAPACITY as int)
    } else {
        sorted
    }
}

/// Lines glued back into file text, each terminated by a newline.
pub open spec fn spec_unlines(lines: Seq<Seq<char>>) -> Seq<char>
    decreases lines.len(),
{
    if lines.len() == 0 {
        Seq::<char>::empty()
    } else {
        lines[0] + seq!['\n'] + spec_unlines(lines.drop_first())
    }
}

/// The full persisted text of a ledger.
pub open spec fn spec_save(v: Seq<(Seq<char>, u64)>) -> Seq<char> {
    spec_unlines(spec_saved_entries(v).map_values(|e: (Seq<char>, u64)| spec_entry_line(e)))
}

/// The recency ledger.
pub struct WindowHistory {
    file_path: String,
    entries: Vec<(String, u64)>,
}

impl View for WindowHistory {
    type V = Seq<(Seq<char>, u64)>;

    closed spec fn view(&self) -> Seq<(Seq<char>, u64)> {
        self.entries@.map_values(|e: (String, u64)| (e.0@, e.1))
    }
}

impl WindowHistory {
    /// The ledger is well formed: no key occurs twice.
    pub open spec fn wf(&self) -> bool {
        unique_keys(self@)
    }

    /// Where this ledger is persisted.
    pub closed spec fn spec_path(&self) -> Seq<char> {
        self.file_path@
    }

    /// A fresh, empty ledger for the given file.
    pub fn new(file_path: String) -> (r: WindowHistory)
        ensures
            r@ == Seq::<(Seq<char>, u64)>::empty(),
            r.wf(),
            r.spec_path() == file_path@,
    {
        let r = WindowHistory { file_path, entries: Vec::new() };
        proof {
            assert(r@ =~= Seq::<(Seq<char>, u64)>::empty());
        }
        r
    }

    /// The path this ledger reads from and writes to.
    pub fn path(&self) -> (r: &String)
        ensures
            r@ == self.spec_path(),
    {
        &self.file_path
    }

    /// Sets the entry for `key` to `stamp`.
    #[verifier::loop_isolation(false)]
    fn record_key(&mut self, key: String, stamp: u64)
        requires
            old(self).wf(),
        ensures
            final(self)@ == spec_record(old(self)@, key@, stamp),
            final(self).wf(),
            final(self).spec_path() == old(self).spec_path(),
    {
        let ghost v0 = self@;
        let mut i: usize = 0;
        while i < self.entries.len()
            invariant
                i <= self.entries@.len(),
                self@ == v0,
                self.spec_path() == old(self).spec_path(),
                self.entries@.len() == v0.len(),
                forall|j: int| 0 <= j < i ==> v0[j].0 != key@,
            decreases self.entries@.len() - i,
        {
            if str_eq(self.entries[i].0.as_str(), key.as_str()) {
                proof {
                    assert(v0[i as int].0 == key@);
                    lemma_record_update(v0, key@, stamp, i as int);
                }
                self.entries.remove(i);
                self.entries.insert(i, (key, stamp));
                proof {
                    assert(self@ =~= v0.update(i as int, (key@, stamp)));
                    assert(old(self).wf());
                    lemma_record(v0, key@, stamp);
                }
                return ;
            }
            i = i + 1;
        }
        proof {
            lemma_record_append(v0, key@, stamp);
        }
        self.entries.push((key, stamp));
        proof {
            assert(self@ =~= v0.push((key@, stamp)));
            lemma_record(v0, key@, stamp);
        }
    }

    /// Sets the entry for `session:index` to the given timestamp;
    /// re-recording overwrites, never accumulates. A session name clean of
    /// tabs and newlines keeps every key fit for the file format.
    pub fn record_access_at(&mut self, session: &str, index: u32, stamp: u64)
        requires
            old(self).wf(),
        ensures
            final(self)@ == spec_record(old(self)@, canon_id(session@, index), stamp),
            final(self).wf(),
            final(self).spec_path() == old(self).spec_path(),
            keys_wf(old(self)@) && sep_free(session@, '\t') && sep_free(session@, '\n')
                ==> keys_wf(final(self)@),
    {
        let key = canon_key(session, index);
        proof {
            if sep_free(session@, '\t') && sep_free(session@, '\n') {
                lemma_canon_id_sep_free(session@, index);
                if keys_wf(old(self)@) {
                    lemma_record_keys_wf(old(self)@, key@, stamp);
                }
            }
        }
        self.record_key(key, stamp);
    }

    /// Sets the entry for `session:index` to the wall clock, in whole
    /// seconds.
    pub fn record_access(&mut self, session: &str, index: u32)
        requires
            old(self).wf(),
        ensures
            exists|t: u64|
                final(self)@ == spec_record(old(self)@, canon_id(session@, index), t),
            final(self).wf(),
            final(self).spec_path() == old(self).spec_path(),
    {
        let now = unix_now();
        self.record_access_at(session, index, now);
    }

    /// Looks the window up; no side effect.
    pub fn get_last_access(&self, session: &str, index: u32) -> (r: Option<u64>)
        ensures
            r == spec_lookup(self@, canon_id(session@, index)),
    {
        let key = canon_key(session, index);
        self.lookup_key(key.as_str())
    }

    /// Looks a canonical key up.
    #[verifier::loop_isolation(false)]
    pub fn lookup_key(&self, key: &str) -> (r: Option<u64>)
        ensures
            r == spec_lookup(self@, key@),
    {
        let ghost v = self@;
        let mut i: usize = 0;
        proof {
            assert(v.skip(0) =~= v);
        }
        while i < self.entries.len()
            invariant
                i <= self.entries@.len(),
                v == self@,
                self.entries@.len() == v.len(),
                spec_lookup(v, key@) == spec_lookup(v.skip(i as int), key@),
            decreases self.entries@.len() - i,
        {
            proof {
                let t = v.skip(i as int);
                assert(t[0] == v[i as int]);
                assert(t.drop_first() =~= v.skip(i as int + 1));
            }
            if str_eq(self.entries[i].0.as_str(), key) {
                return Some(self.entries[i].1);
            }
            i = i + 1;
        }
        proof {
            assert(v.skip(v.len() as int) =~= Seq::<(Seq<char>, u64)>::empty());
        }
        None
    }

    /// Fills the ledger from persisted text: each line split on one tab,
    /// malformed lines skipped one by one.
    #[verifier::loop_isolation(false)]
    pub fn load_from_str(&mut self, text: &str)
        requires
            old(self).wf(),
        ensures
            final(self)@ == spec_load_lines(old(self)@, spec_lines(text@)),
            final(self).wf(),
            final(self).spec_path() == old(self).spec_path(),
    {
        let lines = lines_of(text);
        let ghost all = spec_lines(text@);
        let mut i: usize = 0;
        proof {
            assert(all.skip(0) =~= all);
        }
        while i < lines.len()
            invariant
                i <= lines@.len(),
                lines.deep_view() == all,
                self.wf(),
                self.spec_path() == old(self).spec_path(),
                spec_load_lines(old(self)@, all) == spec_load_lines(self@, all.skip(i as int)),
            decreases lines@.len() - i,
        {
            let ghost v0 = self@;
            let ghost line = all[i as int];
            proof {
                assert(lines@[i as int]@ == all[i as int]);
                assert(all.skip(i as int)[0] == line);
                assert(all.skip(i as int).drop_first() =~= all.skip(i as int + 1));
            }
            let parts = split_char(lines[i].as_str(), '\t');
            proof {
                assert(parts.deep_view().len() == parts@.len());
            }
            if parts.len() == 2 {
                proof {
                    assert(parts@[1]@ == spec_split(line, '\t')[1]);
                    assert(parts@[0]@ == spec_split(line, '\t')[0]);
                }
                match parse_u64(parts[1].as_str()) {
                    Some(stamp) => {
                        let key = parts[0].clone();
                        self.record_key(key, stamp);
                        proof {
                            assert(spec_apply_line(v0, line) == self@);
                        }
                    },
                    None => {
                        proof {
                            assert(spec_apply_line(v0, line) == v0);
                        }
                    },
                }
            } else {
                proof {
                    assert(spec_apply_line(v0, line) == v0);
                }
            }
            i = i + 1;
        }
        proof {
            assert(all.skip(all.len() as int) =~= Seq::<Seq<char>>::empty());
        }
    }

    /// The text a save writes: entries ordered by descending timestamp,
    /// capped at the capacity, one `identity<TAB>timestamp` line each.
    #[verifier::loop_isolation(false)]
    pub fn save_to_string(&self) -> (r: String)
        ensures
            r@ == spec_save(self@),
    {
        let mut pairs: Vec<(String, u64)> = Vec::new();
        let mut i: usize = 0;
        while i < self.entries.len()
            invariant
                i <= self.entries@.len(),
                pairs@.map_values(|e: (String, u64)| (e.0@, e.1)) == self@.take(i as int),
            decreases self.entries@.len() - i,
        {
            let ghost before = pairs@.map_values(|e: (String, u64)| (e.0@, e.1));
            pairs.push((self.entries[i].0.clone(), self.entries[i].1));
            proof {
                assert(pairs@.map_values(|e: (String, u64)| (e.0@, e.1)) =~= before.push(
                    self@[i as int],
                ));
                assert(self@.take(i + 1) =~= self@.take(i as int).push(self@[i as int]));
            }
            i = i + 1;
        }
        proof {
            assert(self@.take(self@.len() as int) =~= self@);
        }
        let ghost p = pairs@;
        let mut sorted = crate::order::sort_desc_by_stamp(pairs);
        proof {
            crate::order::lemma_sort_desc_map(p, |s: String| s@);
            assert(sort_desc(p).map_values(|e: (String, u64)| ((|s: String| s@)(e.0), e.1))
                =~= sort_desc(p).map_values(|e: (String, u64)| (e.0@, e.1)));
            assert(p.map_values(|e: (String, u64)| ((|s: String| s@)(e.0), e.1)) =~= p.map_values(
                |e: (String, u64)| (e.0@, e.1),
            ));
        }
        if sorted.len() > LEDGER_CAPACITY {
            let ghost full = sorted@;
            sorted.truncate(LEDGER_CAPACITY);
            proof {
                assert(sorted@.map_values(|e: (String, u64)| (e.0@, e.1)) =~= full.map_values(
                    |e: (String, u64)| (e.0@, e.1),
                ).take(LEDGER_CAPACITY as int));
            }
        }
        let ghost kept = spec_saved_entries(self@);
        proof {
            assert(sorted@.map_values(|e: (String, u64)| (e.0@, e.1)) == kept);
        }
        let mut out = String::new();
        let mut j: usize = 0;
        proof {
            assert(kept.map_values(|e: (Seq<char>, u64)| spec_entry_line(e)).take(0) =~= Seq::<
                Seq<char>,
            >::empty());
            assert(out@ =~= spec_unlines(Seq::<Seq<char>>::empty()));
        }
        while j < sorted.len()
            invariant
                j <= sorted@.len(),
                sorted@.map_values(|e: (String, u64)| (e.0@, e.1)) == kept,
                out@ == spec_unlines(
                    kept.map_values(|e: (Seq<char>, u64)| spec_entry_line(e)).take(j as int),
                ),
            decreases sorted@.len() - j,
        {
            let ghost lines_done = kept.map_values(|e: (Seq<char>, u64)| spec_entry_line(e)).take(
                j as int,
            );
            proof {
                assert(kept[j as int] == (sorted@[j as int].0@, sorted@[j as int].1));
            }
            out.append(sorted[j].0.as_str());
            push_char(&mut out, '\t');
            let digits = fmt_u64(sorted[j].1);
            out.append(digits.as_str());
            push_char(&mut out, '\n');
            proof {
                let line = spec_entry_line(kept[j as int]);
                assert(out@ =~= spec_unlines(lines_done) + line + seq!['\n']);
                lemma_unlines_snoc(lines_done, line);
                assert(kept.map_values(|e: (Seq<char>, u64)| spec_entry_line(e)).take(j + 1)
                    =~= lines_done.push(line));
            }
            j = j + 1;
        }
        proof {
            let all_lines = kept.map_values(|e: (Seq<char>, u64)| spec_entry_line(e));
            assert(all_lines.take(all_lines.len() as int) =~= all_lines);
        }
        out
    }
}

/// Reads the wall clock.
///
/// Relies on `std::time::SystemTime`: the current time, converted to whole
/// seconds since the Unix epoch (zero if the clock reads before the epoch).
#[verifier::external_body]
fn unix_now() -> u64 {
    std::time::SystemTime::now().duration_since(std::time::UNIX_EPOCH).map(
        |d| d.as_secs(),
    ).unwrap_or(0)
}

/// Recording an absent key appends the entry.
proof fn lemma_record_append(s: Seq<(Seq<char>, u64)>, k: Seq<char>, t: u64)
    requires
        forall|j: int| 0 <= j < s.len() ==> s[j].0 != k,
    ensures
        spec_record(s, k, t) == s.push((k, t)),
    decreases s.len(),
{
    if s.len() == 0 {
        assert(spec_record(s, k, t) =~= s.push((k, t)));
    } else {
        lemma_record_append(s.drop_first(), k, t);
        assert(seq![s[0]] + s.drop_first().push((k, t)) =~= s.push((k, t)));
    }
}

/// Recording a key present at `i` (and nowhere earlier) updates in place.
proof fn lemma_record_update(s: Seq<(Seq<char>, u64)>, k: Seq<char>, t: u64, i: int)
    requires
        0 <= i < s.len(),
        s[i].0 == k,
        forall|j: int| 0 <= j < i ==> s[j].0 != k,
    ensures
        spec_record(s, k, t) == s.update(i, (k, t)),
    decreases s.len(),
{
    if i == 0 {
        assert(seq![(k, t)] + s.drop_first() =~= s.update(0, (k, t)));
    } else {
        assert(s.drop_first()[i - 1].0 == k);
        lemma_record_update(s.drop_first(), k, t, i - 1);
        assert(seq![s[0]] + s.drop_first().update(i - 1, (k, t)) =~= s.update(i, (k, t)));
    }
}

// ------------------------------------------------------------------
// Round-trip laws
// ------------------------------------------------------------------

/// Looking up the key of entry `j` finds that entry's timestamp.
pub proof fn lemma_lookup_present(s: Seq<(Seq<char>, u64)>, j: int)
    requires
        unique_keys(s),
        0 <= j < s.len(),
    ensures
        spec_lookup(s, s[j].0) == Some(s[j].1),
    decreases s.len(),
{
    if j > 0 {
        assert(s[0].0 != s[j].0);
        assert(forall|a: int, b: int|
            0 <= a < b < s.drop_first().len() ==> s.drop_first()[a].0 != s.drop_first()[b].0);
        assert(s.drop_first()[j - 1] == s[j]);
        lemma_lookup_present(s.drop_first(), j - 1);
    }
}

/// Looking up a key no entry carries finds nothing.
pub proof fn lemma_lookup_absent(s: Seq<(Seq<char>, u64)>, k: Seq<char>)
    requires
        forall|j: int| 0 <= j < s.len() ==> (#[trigger] s[j].0) != k,
    ensures
        spec_lookup(s, k) == None::<u64>,
    decreases s.len(),
{
    if s.len() > 0 {
        assert(s.drop_first()[0] == s[1] || s.drop_first().len() == 0);
        assert(forall|j: int|
            0 <= j < s.drop_first().len() ==> (#[trigger] s.drop_first()[j].0) == s[j + 1].0);
        lemma_lookup_absent(s.drop_first(), k);
    }
}

/// Newline-terminated lines are the newline-join of the lines plus one empty
/// field.
proof fn lemma_unlines_as_join(lines: Seq<Seq<char>>)
    ensures
        spec_unlines(lines) == spec_join(lines.push(Seq::<char>::empty()), '\n'),
    decreases lines.len(),
{
    let e = Seq::<char>::empty();
    if lines.len() == 0 {
        assert(spec_join(lines.push(e), '\n') == lines.push(e)[0]);
        assert(lines.push(e)[0] =~= Seq::<char>::empty());
    } else {
        lemma_unlines_as_join(lines.drop_first());
        let p = lines.push(e);
        assert(p.len() >= 2);
        assert(p[0] == lines[0]);
        assert(p.drop_first() =~= lines.drop_first().push(e));
        assert(spec_join(p, '\n') == p[0] + seq!['\n'] + spec_join(p.drop_first(), '\n'));
    }
}

/// Splitting rendered lines back apart recovers them, as long as no line
/// holds a newline and none ends in a carriage return.
pub proof fn lemma_lines_unlines(lines: Seq<Seq<char>>)
    requires
        forall|i: int| 0 <= i < lines.len() ==> sep_free(#[trigger] lines[i], '\n'),
        forall|i: int|
            0 <= i < lines.len() ==> ((#[trigger] lines[i]).len() > 0 ==> lines[i].last() != '\r'),
    ensures
        spec_lines(spec_unlines(lines)) == lines,
{
    let e = Seq::<char>::empty();
    let p = lines.push(e);
    lemma_unlines_as_join(lines);
    assert forall|k: int| 0 <= k < p.len() implies sep_free(#[trigger] p[k], '\n') by {
        if k < lines.len() {
            assert(p[k] == lines[k]);
        }
    }
    crate::text::lemma_join_split(p, '\n');
    let parts = spec_split(spec_unlines(lines), '\n');
    assert(parts == p);
    assert(parts.last() == e);
    assert(parts.drop_last() =~= lines);
    assert(spec_lines(spec_unlines(lines)) =~~= lines) by {
        assert forall|i: int| 0 <= i < lines.len() implies crate::text::strip_cr(
            #[trigger] lines[i],
        ) == lines[i] by {}
    }
}

/// A rendered entry line parses back to the entry.
pub proof fn lemma_entry_line_parses(e: (Seq<char>, u64))
    requires
        sep_free(e.0, '\t'),
    ensures
        spec_parse_entry(spec_entry_line(e)) == Some(e),
{
    let d = dec_digits(e.1 as nat);
    crate::text::lemma_dec_digits_val(e.1 as nat);
    assert(sep_free(d, '\t')) by {
        assert forall|i: int| 0 <= i < d.len() implies d[i] != '\t' by {
            assert(crate::text::is_digit_char(d[i]));
            assert('\t' as u32 == 9);
        }
    }
    crate::text::lemma_split_peel(e.0, d, '\t');
    crate::text::lemma_split_of_free(d, '\t');
    let parts = spec_split(spec_entry_line(e), '\t');
    assert(parts == seq![e.0] + seq![d]);
    assert(parts.len() == 2);
    assert(parts[0] == e.0);
    assert(parts[1] == d);
    assert(d[0] != '+') by {
        assert(crate::text::is_digit_char(d[0]));
        assert('+' as u32 == 43);
    }
    assert(crate::text::num_body(d) == d);
    assert(spec_parse_u64(d) == Some(e.1));
}

/// An entry line is newline-free and does not end in a carriage return.
proof fn lemma_entry_line_chars(e: (Seq<char>, u64))
    requires
        sep_free(e.0, '\n'),
    ensures
        sep_free(spec_entry_line(e), '\n'),
        spec_entry_line(e).len() > 0,
        spec_entry_line(e).last() != '\r',
{
    let d = dec_digits(e.1 as nat);
    crate::text::lemma_dec_digits_val(e.1 as nat);
    let line = spec_entry_line(e);
    assert forall|i: int| 0 <= i < line.len() implies line[i] != '\n' by {
        if i < e.0.len() {
            assert(line[i] == e.0[i]);
        } else if i == e.0.len() {
            assert(line[i] == '\t');
            assert('\t' as u32 == 9 && '\n' as u32 == 10);
        } else {
            assert(line[i] == d[i - e.0.len() - 1]);
            assert(crate::text::is_digit_char(d[i - e.0.len() - 1]));
            assert('\n' as u32 == 10);
        }
    }
    assert(line.last() == d[d.len() - 1]);
    assert(crate::text::is_digit_char(d[d.len() - 1]));
    assert('\r' as u32 == 13);
}

/// Loading rendered entry lines with fresh, distinct keys appends them all.
proof fn lemma_load_entry_lines(acc: Seq<(Seq<char>, u64)>, es: Seq<(Seq<char>, u64)>)
    requires
        forall|i: int| 0 <= i < es.len() ==> sep_free((#[trigger] es[i]).0, '\t'),
        unique_keys(acc + es),
    ensures
        spec_load_lines(acc, es.map_values(|e: (Seq<char>, u64)| spec_entry_line(e))) == acc + es,
    decreases es.len(),
{
    let lines = es.map_values(|e: (Seq<char>, u64)| spec_entry_line(e));
    if es.len() == 0 {
        assert(lines.len() == 0);
        assert(acc + es =~= acc);
    } else {
        lemma_entry_line_parses(es[0]);
        assert(lines[0] == spec_entry_line(es[0]));
        assert forall|j: int| 0 <= j < acc.len() implies (#[trigger] acc[j]).0 != es[0].0 by {
            assert((acc + es)[j] == acc[j]);
            assert((acc + es)[acc.len() as int] == es[0]);
        }
        lemma_record_append(acc, es[0].0, es[0].1);
        assert(spec_apply_line(acc, lines[0]) == acc.push(es[0]));
        let acc2 = acc.push(es[0]);
        let es2 = es.drop_first();
        assert(acc2 + es2 =~= acc + es);
        assert(forall|i: int| 0 <= i < es2.len() ==> (#[trigger] es2[i]) == es[i + 1]);
        lemma_load_entry_lines(acc2, es2);
        assert(lines.drop_first() =~= es2.map_values(|e: (Seq<char>, u64)| spec_entry_line(e)));
        assert(spec_load_lines(acc, lines) == spec_load_lines(acc2, lines.drop_first()));
    }
}

/// Insertion keeps keys unique when the new key is fresh.
proof fn lemma_insert_desc_unique(s: Seq<(Seq<char>, u64)>, x: (Seq<char>, u64))
    requires
        unique_keys(s),
        forall|j: int| 0 <= j < s.len() ==> (#[trigger] s[j]).0 != x.0,
    ensures
        unique_keys(crate::order::insert_desc(s, x)),
    decreases s.len(),
{
    let r = crate::order::insert_desc(s, x);
    if s.len() == 0 {
    } else if s[0].1 >= x.1 {
        let s2 = s.drop_first();
        assert(forall|a: int, b: int| 0 <= a < b < s2.len() ==> s2[a].0 != s2[b].0);
        assert(forall|j: int| 0 <= j < s2.len() ==> (#[trigger] s2[j]).0 != x.0);
        lemma_insert_desc_unique(s2, x);
        crate::order::lemma_insert_desc_elems(s2, x);
        let r2 = crate::order::insert_desc(s2, x);
        assert forall|a: int, b: int| 0 <= a < b < r.len() implies r[a].0 != r[b].0 by {
            if a == 0 {
                assert(r[0] == s[0]);
                assert(r[b] == r2[b - 1]);
                if r2[b - 1] == x {
                    assert(s[0].0 != x.0);
                } else {
                    let w = choose|w: int| 0 <= w < s2.len() && r2[b - 1] == s2[w];
                    assert(s[0].0 != s2[w].0);
                }
            } else {
                assert(r[a] == r2[a - 1] && r[b] == r2[b - 1]);
            }
        }
    } else {
        assert forall|a: int, b: int| 0 <= a < b < r.len() implies r[a].0 != r[b].0 by {
            if a == 0 {
                assert(r[b] == s[b - 1]);
            } else {
                assert(r[a] == s[a - 1] && r[b] == s[b - 1]);
            }
        }
    }
}

/// Sorting keeps keys unique.
proof fn lemma_sort_desc_unique(v: Seq<(Seq<char>, u64)>)
    requires
        unique_keys(v),
    ensures
        unique_keys(sort_desc(v)),
    decreases v.len(),
{
    if v.len() > 0 {
        let v2 = v.drop_last();
        assert(forall|a: int, b: int| 0 <= a < b < v2.len() ==> v2[a].0 != v2[b].0);
        lemma_sort_desc_unique(v2);
        crate::order::lemma_sort_desc_elems(v2);
        assert forall|j: int| 0 <= j < sort_desc(v2).len() implies (#[trigger] sort_desc(
            v2,
        )[j]).0 != v.last().0 by {
            let w = choose|w: int| 0 <= w < v2.len() && sort_desc(v2)[j] == v2[w];
            assert(v2[w] == v[w]);
            assert(v[w].0 != v[v.len() - 1].0);
        }
        lemma_insert_desc_unique(sort_desc(v2), v.last());
    }
}

/// Sorting keeps every key format-safe.
proof fn lemma_sort_desc_keys_wf(v: Seq<(Seq<char>, u64)>)
    requires
        keys_wf(v),
    ensures
        keys_wf(sort_desc(v)),
{
    crate::order::lemma_sort_desc_elems(v);
    assert forall|i: int|
        0 <= i < sort_desc(v).len() implies sep_free(#[trigger] sort_desc(v)[i].0, '\t')
        && sep_free(sort_desc(v)[i].0, '\n') by {
        let w = choose|w: int| 0 <= w < v.len() && sort_desc(v)[i] == v[w];
        assert(sep_free(v[w].0, '\t') && sep_free(v[w].0, '\n'));
    }
}

/// What a save keeps: sorted descending, capped, unique and format-safe
/// keys.
proof fn lemma_saved_entries(v: Seq<(Seq<char>, u64)>)
    requires
        unique_keys(v),
        keys_wf(v),
    ensures
        crate::order::sorted_desc(spec_saved_entries(v)),
        spec_saved_entries(v).len() <= LEDGER_CAPACITY as int,
        unique_keys(spec_saved_entries(v)),
        keys_wf(spec_saved_entries(v)),
{
    let dummy: u64 = 0;
    crate::order::lemma_sort_desc(v, dummy);
    lemma_sort_desc_unique(v);
    lemma_sort_desc_keys_wf(v);
    let sorted = sort_desc(v);
    let kept = spec_saved_entries(v);
    if sorted.len() > LEDGER_CAPACITY as int {
        assert(forall|i: int| 0 <= i < kept.len() ==> #[trigger] kept[i] == sorted[i]);
    }
}

/// Loading a saved ledger back gives exactly the entries the save kept.
proof fn lemma_saved_text_loads(v: Seq<(Seq<char>, u64)>)
    requires
        unique_keys(v),
        keys_wf(v),
    ensures
        spec_load_lines(Seq::<(Seq<char>, u64)>::empty(), spec_lines(spec_save(v)))
            == spec_saved_entries(v),
{
    let kept = spec_saved_entries(v);
    let lines = kept.map_values(|e: (Seq<char>, u64)| spec_entry_line(e));
    lemma_saved_entries(v);
    assert forall|i: int| 0 <= i < lines.len() implies sep_free(#[trigger] lines[i], '\n') && (
    lines[i].len() > 0 ==> lines[i].last() != '\r') by {
        lemma_entry_line_chars(kept[i]);
    }
    lemma_lines_unlines(lines);
    assert(Seq::<(Seq<char>, u64)>::empty() + kept =~= kept);
    lemma_load_entry_lines(Seq::<(Seq<char>, u64)>::empty(), kept);
}

/// Capacity: the persisted text holds at most the capacity's worth of
/// lines, for any ledger state whose keys fit the file format.
pub proof fn lemma_save_capacity(v: Seq<(Seq<char>, u64)>)
    requires
        keys_wf(v),
    ensures
        spec_lines(spec_save(v)).len() <= LEDGER_CAPACITY as int,
{
    let kept = spec_saved_entries(v);
    let lines = kept.map_values(|e: (Seq<char>, u64)| spec_entry_line(e));
    lemma_sort_desc_keys_wf(v);
    let dummy: u64 = 0;
    crate::order::lemma_sort_desc(v, dummy);
    assert(keys_wf(kept)) by {
        if sort_desc(v).len() > LEDGER_CAPACITY as int {
            assert(forall|i: int| 0 <= i < kept.len() ==> #[trigger] kept[i] == sort_desc(v)[i]);
        }
    }
    assert forall|i: int| 0 <= i < lines.len() implies sep_free(#[trigger] lines[i], '\n') && (
    lines[i].len() > 0 ==> lines[i].last() != '\r') by {
        lemma_entry_line_chars(kept[i]);
    }
    lemma_lines_unlines(lines);
}

/// Round trip: a ledger of distinct identities at strictly increasing
/// timestamps, saved and loaded into a fresh ledger, answers lookups
/// exactly for the most recent `LEDGER_CAPACITY` identities and forgets
/// the rest.
pub proof fn lemma_save_load_round_trip(v: Seq<(Seq<char>, u64)>)
    requires
        unique_keys(v),
        keys_wf(v),
        forall|i: int, j: int| 0 <= i < j < v.len() ==> v[i].1 < v[j].1,
    ensures
        forall|i: int|
            0 <= i < v.len() && v.len() - LEDGER_CAPACITY as int <= i ==> spec_lookup(
                spec_load_lines(Seq::<(Seq<char>, u64)>::empty(), spec_lines(spec_save(v))),
                (#[trigger] v[i]).0,
            ) == Some(v[i].1),
        forall|i: int|
            0 <= i < v.len() - LEDGER_CAPACITY as int ==> spec_lookup(
                spec_load_lines(Seq::<(Seq<char>, u64)>::empty(), spec_lines(spec_save(v))),
                (#[trigger] v[i]).0,
            ) == None::<u64>,
{
    lemma_saved_text_loads(v);
    lemma_saved_entries(v);
    crate::order::lemma_sort_desc_of_ascending(v);
    let dummy: u64 = 0;
    crate::order::lemma_sort_desc(v, dummy);
    let kept = spec_saved_entries(v);
    let cap = LEDGER_CAPACITY as int;
    assert(kept.len() == if v.len() > cap {
        cap
    } else {
        v.len() as int
    });
    assert(forall|j: int| 0 <= j < kept.len() ==> #[trigger] kept[j] == v[v.len() - 1 - j]);
    assert forall|i: int| 0 <= i < v.len() && v.len() - cap <= i implies spec_lookup(
        spec_load_lines(Seq::<(Seq<char>, u64)>::empty(), spec_lines(spec_save(v))),
        (#[trigger] v[i]).0,
    ) == Some(v[i].1) by {
        let j = v.len() - 1 - i;
        assert(kept[j] == v[i]);
        lemma_lookup_present(kept, j);
    }
    assert forall|i: int| 0 <= i < v.len() - cap implies spec_lookup(
        spec_load_lines(Seq::<(Seq<char>, u64)>::empty(), spec_lines(spec_save(v))),
        (#[trigger] v[i]).0,
    ) == None::<u64> by {
        assert forall|j: int| 0 <= j < kept.len() implies (#[trigger] kept[j]).0 != v[i].0 by {
            assert(kept[j] == v[v.len() - 1 - j]);
            assert(v.len() - 1 - j != i);
        }
        lemma_lookup_absent(kept, v[i].0);
    }
}

/// Idempotence: saving a freshly loaded, unmodified ledger writes text
/// byte-identical to what it was loaded from, given that text came from
/// this writer.
pub proof fn lemma_save_idempotent(v: Seq<(Seq<char>, u64)>)
    requires
        unique_keys(v),
        keys_wf(v),
    ensures
        spec_save(spec_load_lines(Seq::<(Seq<char>, u64)>::empty(), spec_lines(spec_save(v))))
            == spec_save(v),
{
    lemma_saved_text_loads(v);
    lemma_saved_entries(v);
    let kept = spec_saved_entries(v);
    crate::order::lemma_sort_desc_of_sorted(kept);
    assert(spec_saved_entries(kept) == kept);
}

// ------------------------------------------------------------------
// The same laws over whole sequences of record calls
// ------------------------------------------------------------------

/// What a ledger holds after a sequence of accesses was recorded into it,
/// first to last; `record_access_at` ensures exactly one such step.
pub open spec fn spec_record_all(
    s: Seq<(Seq<char>, u64)>,
    accs: Seq<(Seq<char>, u32, u64)>,
) -> Seq<(Seq<char>, u64)>
    decreases accs.len(),
{
    if accs.len() == 0 {
        s
    } else {
        spec_record_all(
            spec_record(s, canon_id(accs[0].0, accs[0].1), accs[0].2),
            accs.drop_first(),
        )
    }
}

/// Whether every recorded session name fits on one line of the ledger file.
pub open spec fn accs_wf(accs: Seq<(Seq<char>, u32, u64)>) -> bool {
    forall|k: int|
        0 <= k < accs.len() ==> sep_free((#[trigger] accs[k]).0, '\t') && sep_free(
            accs[k].0,
            '\n',
        )
}

/// Any sequence of records keeps the ledger well formed.
pub proof fn lemma_record_all_wf(s: Seq<(Seq<char>, u64)>, accs: Seq<(Seq<char>, u32, u64)>)
    requires
        unique_keys(s),
        keys_wf(s),
        accs_wf(accs),
    ensures
        unique_keys(spec_record_all(s, accs)),
        keys_wf(spec_record_all(s, accs)),
    decreases accs.len(),
{
    if accs.len() > 0 {
        let k = canon_id(accs[0].0, accs[0].1);
        lemma_canon_id_sep_free(accs[0].0, accs[0].1);
        lemma_record(s, k, accs[0].2);
        lemma_record_keys_wf(s, k, accs[0].2);
        assert(accs_wf(accs.drop_first())) by {
            assert(forall|j: int|
                0 <= j < accs.drop_first().len() ==> (#[trigger] accs.drop_first()[j]) == accs[j
                    + 1]);
        }
        lemma_record_all_wf(spec_record(s, k, accs[0].2), accs.drop_first());
    }
}

/// Records whose identities are all fresh and pairwise distinct append
/// their entries in order.
proof fn lemma_record_all_fresh(s: Seq<(Seq<char>, u64)>, accs: Seq<(Seq<char>, u32, u64)>)
    requires
        unique_keys(
            s + accs.map_values(|a: (Seq<char>, u32, u64)| (canon_id(a.0, a.1), a.2)),
        ),
    ensures
        spec_record_all(s, accs) == s + accs.map_values(
            |a: (Seq<char>, u32, u64)| (canon_id(a.0, a.1), a.2),
        ),
    decreases accs.len(),
{
    let m = accs.map_values(|a: (Seq<char>, u32, u64)| (canon_id(a.0, a.1), a.2));
    if accs.len() == 0 {
        assert(s + m =~= s);
    } else {
        let k = canon_id(accs[0].0, accs[0].1);
        assert(m[0] == (k, accs[0].2));
        assert forall|j: int| 0 <= j < s.len() implies (#[trigger] s[j]).0 != k by {
            assert((s + m)[j] == s[j]);
            assert((s + m)[s.len() as int] == m[0]);
        }
        lemma_record_append(s, k, accs[0].2);
        let s2 = s.push((k, accs[0].2));
        let m2 = accs.drop_first().map_values(
            |a: (Seq<char>, u32, u64)| (canon_id(a.0, a.1), a.2),
        );
        assert(m2 =~= m.drop_first());
        assert(s2 + m2 =~= s + m);
        lemma_record_all_fresh(s2, accs.drop_first());
    }
}

/// Capacity, over the record calls themselves: after any sequence of
/// accesses recorded into a fresh ledger (session names free of tabs and
/// newlines, as one line of the file can hold), the persisted text has at
/// most [`LEDGER_CAPACITY`] lines.
pub proof fn lemma_record_save_capacity(accs: Seq<(Seq<char>, u32, u64)>)
    requires
        accs_wf(accs),
    ensures
        spec_lines(spec_save(spec_record_all(Seq::<(Seq<char>, u64)>::empty(), accs))).len()
            <= LEDGER_CAPACITY as int,
{
    lemma_record_all_wf(Seq::<(Seq<char>, u64)>::empty(), accs);
    lemma_save_capacity(spec_record_all(Seq::<(Seq<char>, u64)>::empty(), accs));
}

/// Round trip, over the record calls themselves: recording distinct
/// identities at strictly increasing timestamps into a fresh ledger,
/// saving, and loading the text into another fresh ledger reproduces the
/// lookup of each of the `LEDGER_CAPACITY` most recent identities exactly;
/// every older identity reads as absent.
pub proof fn lemma_record_round_trip(accs: Seq<(Seq<char>, u32, u64)>)
    requires
        accs_wf(accs),
        forall|a: int, b: int|
            0 <= a < b < accs.len() ==> canon_id((#[trigger] accs[a]).0, accs[a].1) != canon_id(
                (#[trigger] accs[b]).0,
                accs[b].1,
            ),
        forall|a: int, b: int| 0 <= a < b < accs.len() ==> accs[a].2 < accs[b].2,
    ensures
        forall|i: int|
            0 <= i < accs.len() && accs.len() - LEDGER_CAPACITY as int <= i ==> spec_lookup(
                spec_load_lines(
                    Seq::<(Seq<char>, u64)>::empty(),
                    spec_lines(spec_save(spec_record_all(Seq::<(Seq<char>, u64)>::empty(), accs))),
                ),
                canon_id((#[trigger] accs[i]).0, accs[i].1),
            ) == Some(accs[i].2),
        forall|i: int|
            0 <= i < accs.len() - LEDGER_CAPACITY as int ==> spec_lookup(
                spec_load_lines(
                    Seq::<(Seq<char>, u64)>::empty(),
                    spec_lines(spec_save(spec_record_all(Seq::<(Seq<char>, u64)>::empty(), accs))),
                ),
                canon_id((#[trigger] accs[i]).0, accs[i].1),
            ) == None::<u64>,
{
    let v = accs.map_values(|a: (Seq<char>, u32, u64)| (canon_id(a.0, a.1), a.2));
    assert forall|a: int, b: int| 0 <= a < b < v.len() implies v[a].0 != v[b].0 by {
        assert(v[a] == (canon_id(accs[a].0, accs[a].1), accs[a].2));
        assert(v[b] == (canon_id(accs[b].0, accs[b].1), accs[b].2));
    }
    assert(Seq::<(Seq<char>, u64)>::empty() + v =~= v);
    lemma_record_all_fresh(Seq::<(Seq<char>, u64)>::empty(), accs);
    assert forall|i: int|
        0 <= i < v.len() implies sep_free(#[trigger] v[i].0, '\t') && sep_free(v[i].0, '\n') by {
        assert(v[i] == (canon_id(accs[i].0, accs[i].1), accs[i].2));
        lemma_canon_id_sep_free(accs[i].0, accs[i].1);
    }
    assert(forall|a: int, b: int| 0 <= a < b < v.len() ==> v[a].1 < v[b].1);
    lemma_save_load_round_trip(v);
    let h = spec_record_all(Seq::<(Seq<char>, u64)>::empty(), accs);
    assert(h == v);
    let cap = LEDGER_CAPACITY as int;
    let loaded = spec_load_lines(
        Seq::<(Seq<char>, u64)>::empty(),
        spec_lines(spec_save(h)),
    );
    assert forall|i: int| 0 <= i < accs.len() && accs.len() - cap <= i implies spec_lookup(
        loaded,
        canon_id((#[trigger] accs[i]).0, accs[i].1),
    ) == Some(accs[i].2) by {
        assert(v[i] == (canon_id(accs[i].0, accs[i].1), accs[i].2));
        assert(spec_lookup(
            spec_load_lines(Seq::<(Seq<char>, u64)>::empty(), spec_lines(spec_save(v))),
            v[i].0,
        ) == Some(v[i].1));
    }
    assert forall|i: int| 0 <= i < accs.len() - cap implies spec_lookup(
        loaded,
        canon_id((#[trigger] accs[i]).0, accs[i].1),
    ) == None::<u64> by {
        assert(v[i] == (canon_id(accs[i].0, accs[i].1), accs[i].2));
        assert(spec_lookup(
            spec_load_lines(Seq::<(Seq<char>, u64)>::empty(), spec_lines(spec_save(v))),
            v[i].0,
        ) == None::<u64>);
    }
}

/// Idempotence, over the record calls themselves: after any sequence of
/// accesses recorded into a fresh ledger, saving a freshly loaded,
/// unmodified copy writes text byte-identical to what it was loaded from.
pub proof fn lemma_record_save_idempotent(accs: Seq<(Seq<char>, u32, u64)>)
    requires
        accs_wf(accs),
    ensures
        spec_save(
            spec_load_lines(
                Seq::<(Seq<char>, u64)>::empty(),
                spec_lines(spec_save(spec_record_all(Seq::<(Seq<char>, u64)>::empty(), accs))),
            ),
        ) == spec_save(spec_record_all(Seq::<(Seq<char>, u64)>::empty(), accs)),
{
    lemma_record_all_wf(Seq::<(Seq<char>, u64)>::empty(), accs);
    lemma_save_idempotent(spec_record_all(Seq::<(Seq<char>, u64)>::empty(), accs));
}

/// Gluing one more line on extends the text at the back.
proof fn lemma_unlines_snoc(lines: Seq<Seq<char>>, line: Seq<char>)
    ensures
        spec_unlines(lines.push(line)) == spec_unlines(lines) + line + seq!['\n'],
    decreases lines.len(),
{
    if lines.len() == 0 {
        assert(lines.push(line)[0] == line);
        assert(lines.push(line).drop_first() =~= Seq::<Seq<char>>::empty());
        assert(spec_unlines(Seq::<Seq<char>>::empty()) =~= Seq::<char>::empty());
        assert(spec_unlines(lines.push(line)) =~= spec_unlines(lines) + line + seq!['\n']);
    } else {
        assert(lines.push(line)[0] == lines[0]);
        assert(lines.push(line).drop_first() =~= lines.drop_first().push(line));
        lemma_unlines_snoc(lines.drop_first(), line);
        assert(lines[0] + seq!['\n'] + (spec_unlines(lines.drop_first()) + line + seq!['\n'])
            =~= spec_unlines(lines) + line + seq!['\n']);
    }
}

} // verus!
