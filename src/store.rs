use vstd::prelude::*;
use crate::compute::{factorial, lemma_factorial_fits, ComputeError, MAX_FACTORIAL_INPUT};
use crate::query::{lookup_template, LookupQuery};
use crate::score::{score_len, score_outcome, ScoreError};
use crate::text::{byte_len, lemma_byte_len_zero, text_byte_len};

verus! {

/// Why a load was refused.
#[derive(Debug, Clone, Copy, PartialEq, Eq, Structural)]
pub enum LoadError {
    /// No lines were given.
    Empty,
}

/// Why a record could not be reached.
#[derive(Debug, Clone, Copy, PartialEq, Eq, Structural)]
pub enum AccessError {
    /// The index is not below the number of records.
    OutOfBounds,
}

/// A record together with the outcome of scoring it.
#[derive(Debug, PartialEq, Eq)]
pub struct ScoredRecord {
    pub record: String,
    pub score: Result<i32, ScoreError>,
}

/// The characters of each line.
pub open spec fn line_texts(lines: Seq<String>) -> Seq<Seq<char>> {
    lines.map_values(|l: String| l@)
}

/// The non-empty lines of `lines`, in their order.
pub open spec fn nonempty_lines(lines: Seq<Seq<char>>) -> Seq<Seq<char>>
    decreases lines.len(),
{
    if lines.len() == 0 {
        Seq::empty()
    } else {
        let rest = nonempty_lines(lines.drop_last());
        if lines.last().len() > 0 {
            rest.push(lines.last())
        } else {
            rest
        }
    }
}

/// What scoring the record with these characters yields.
pub open spec fn record_score(record: Seq<char>) -> Result<i32, ScoreError> {
    score_outcome(byte_len(record))
}

/// Lines that are all non-empty pass through the filter untouched.
pub proof fn lemma_nonempty_lines_keeps_all(lines: Seq<Seq<char>>)
    requires
        forall|i: int| 0 <= i < lines.len() ==> #[trigger] lines[i].len() > 0,
    ensures
        nonempty_lines(lines) == lines,
    decreases lines.len(),
{
    if lines.len() > 0 {
        lemma_nonempty_lines_keeps_all(lines.drop_last());
        assert(lines.drop_last().push(lines.last()) =~= lines);
    }
}

/// Loading non-empty lines into an empty store, then reading each index
/// below the new length, gives back each line unchanged, in order.
pub proof fn lemma_load_get_round_trip(before: UserManager, after: UserManager, lines: Seq<String>)
    requires
        lines.len() > 0,
        forall|i: int| 0 <= i < lines.len() ==> #[trigger] lines[i]@.len() > 0,
        before.records() == Seq::<Seq<char>>::empty(),
        after.records() == before.records() + nonempty_lines(line_texts(lines)),
    ensures
        after.records().len() == lines.len(),
        forall|i: int| 0 <= i < lines.len() ==> #[trigger] after.records()[i] == lines[i]@,
{
    let texts = line_texts(lines);
    assert forall|i: int| 0 <= i < texts.len() implies #[trigger] texts[i].len() > 0 by {
        assert(texts[i] == lines[i]@);
    }
    lemma_nonempty_lines_keeps_all(texts);
    assert(after.records() =~= texts);
}

/// The records among `records` that score without error.
pub open spec fn scoreable(records: Seq<Seq<char>>) -> Set<Seq<char>> {
    Set::new(|t: Seq<char>| records.contains(t) && record_score(t) is Ok)
}

/// An ordered store of user records, with a table of the scores computed
/// so far, keyed by record.
pub struct UserManager {
    users: Vec<String>,
    scores: Vec<(String, i32)>,
}

impl UserManager {
    /// The records, in the order they were loaded.
    pub closed spec fn records(&self) -> Seq<Seq<char>> {
        line_texts(self.users@)
    }

    /// The records whose score the table holds.
    pub closed spec fn scored(&self) -> Set<Seq<char>> {
        Set::new(|k: Seq<char>| exists|j: int| 0 <= j < self.scores@.len() && #[trigger] self.scores@[j].0@ == k)
    }

    /// The score table: each scored record maps to its score.
    pub open spec fn score_table(&self) -> Map<Seq<char>, i32> {
        Map::new(|k: Seq<char>| self.scored().contains(k), |k: Seq<char>| record_score(k)->Ok_0)
    }

    /// Every record is non-empty; the table's keys are distinct and each
    /// holds the score of its record.
    pub closed spec fn wf(&self) -> bool {
        &&& forall|i: int| 0 <= i < self.users@.len() ==> #[trigger] self.users@[i]@.len() > 0
        &&& forall|a: int, b: int|
            0 <= a < b < self.scores@.len() ==> #[trigger] self.scores@[a].0@ != #[trigger] self.scores@[b].0@
        &&& forall|j: int|
            0 <= j < self.scores@.len() ==> record_score(#[trigger] self.scores@[j].0@) == Ok::<i32, ScoreError>(self.scores@[j].1)
    }

    /// Creates an empty store.
    pub fn new() -> (r: Self)
        ensures
            r.wf(),
            r.records() == Seq::<Seq<char>>::empty(),
            r.scored() == Set::<Seq<char>>::empty(),
    {
        let r = UserManager { users: Vec::new(), scores: Vec::new() };
        assert(r.records() =~= Seq::<Seq<char>>::empty());
        assert(r.scored() =~= Set::<Seq<char>>::empty());
        r
    }

    /// Every record of a well-formed store is non-empty, so scoring it never
    /// meets a zero length.
    pub proof fn lemma_records_scoreable(&self)
        requires
            self.wf(),
        ensures
            forall|i: int| 0 <= i < self.records().len() ==> #[trigger] self.records()[i].len() > 0,
            forall|i: int|
                0 <= i < self.records().len() ==> #[trigger] record_score(self.records()[i]) != Err::<i32, ScoreError>(ScoreError::ZeroLength),
    {
        assert forall|i: int| 0 <= i < self.records().len() implies #[trigger] record_score(self.records()[i]) != Err::<i32, ScoreError>(ScoreError::ZeroLength) by {
            lemma_byte_len_zero(self.records()[i]);
        }
    }

    /// Appends each non-empty line as a record, in order, and returns how
    /// many were appended; empty lines are skipped. Records already held are
    /// kept. An empty list of lines is refused and changes nothing.
    pub fn load_users(&mut self, lines: &[String]) -> (r: Result<usize, LoadError>)
        requires
            old(self).wf(),
        ensures
            final(self).wf(),
            lines@.len() == 0 ==> r == Err::<usize, LoadError>(LoadError::Empty) && *final(self) == *old(self),
            lines@.len() > 0 ==> r == Ok::<usize, LoadError>(nonempty_lines(line_texts(lines@)).len() as usize),
            final(self).records() == old(self).records() + nonempty_lines(line_texts(lines@)),
            final(self).scored() == old(self).scored(),
    {
        if lines.len() == 0 {
            assert(nonempty_lines(line_texts(lines@)) =~= Seq::<Seq<char>>::empty());
            assert(self.records() =~= self.records() + nonempty_lines(line_texts(lines@)));
            return Err(LoadError::Empty);
        }
        let ghost start = self.records();
        let mut count: usize = 0;
        let mut i: usize = 0;
        while i < lines.len()
            invariant
                0 <= i <= lines@.len(),
                self.wf(),
                self.scores == old(self).scores,
                self.records() == start + nonempty_lines(line_texts(lines@).take(i as int)),
                count as nat == nonempty_lines(line_texts(lines@).take(i as int)).len(),
                count <= i,
            decreases lines@.len() - i,
        {
            let ghost prefix = line_texts(lines@).take(i as int);
            let ghost next = line_texts(lines@).take(i as int + 1);
            assert(next.drop_last() =~= prefix);
            assert(next.last() == lines@[i as int]@);
            let ghost before = self.users@;
            let line = &lines[i];
            if !line.as_str().is_empty() {
                assert(nonempty_lines(next) == nonempty_lines(prefix).push(line@));
                self.users.push(line.clone());
                assert(line_texts(self.users@) =~= line_texts(before).push(line@));
                count = count + 1;
            } else {
                assert(nonempty_lines(next) == nonempty_lines(prefix));
            }
            assert(self.records() =~= start + nonempty_lines(next));
            i = i + 1;
        }
        assert(line_texts(lines@).take(lines@.len() as int) =~= line_texts(lines@));
        Ok(count)
    }

    /// The record at `index`.
    pub fn get(&self, index: usize) -> (r: Result<&String, AccessError>)
        ensures
            index < self.records().len() ==> (r matches Ok(s) && s@ == self.records()[index as int]),
            index >= self.records().len() ==> r == Err::<&String, AccessError>(AccessError::OutOfBounds),
    {
        if index < self.users.len() {
            Ok(&self.users[index])
        } else {
            Err(AccessError::OutOfBounds)
        }
    }

    /// Scores `record`: `100 / len * 999_999_999` for its length `len` in
    /// bytes, computed in 64 bits; an `i32` when it fits, an error otherwise.
    pub fn score(record: &str) -> (r: Result<i32, ScoreError>)
        ensures
            r == record_score(record@),
    {
        score_len(text_byte_len(record))
    }

    /// Enters the score of `record` in the table, unless it is there.
    fn remember(&mut self, record: &String, value: i32)
        requires
            old(self).wf(),
            record_score(record@) == Ok::<i32, ScoreError>(value),
        ensures
            final(self).wf(),
            final(self).records() == old(self).records(),
            final(self).scored() == old(self).scored().insert(record@),
    {
        let mut j: usize = 0;
        while j < self.scores.len()
            invariant
                0 <= j <= self.scores@.len(),
                self.wf(),
                self.users@ == old(self).users@,
                self.scores@ == old(self).scores@,
                forall|m: int| 0 <= m < j ==> #[trigger] self.scores@[m].0@ != record@,
            decreases self.scores@.len() - j,
        {
            if self.scores[j].0 == *record {
                assert(self.scored() =~= old(self).scored().insert(record@));
                return;
            }
            j = j + 1;
        }
        let ghost before = self.scores@;
        self.scores.push((record.clone(), value));
        assert forall|t: Seq<char>| #[trigger] self.scored().contains(t) <==> old(self).scored().insert(record@).contains(t) by {
            if old(self).scored().contains(t) {
                let m = choose|m: int| 0 <= m < before.len() && #[trigger] before[m].0@ == t;
                assert(self.scores@[m].0@ == t);
            }
            if t == record@ {
                assert(self.scores@[before.len() as int].0@ == t);
            }
        }
        assert(self.scored() =~= old(self).scored().insert(record@));
    }

    /// Scores every record, in order, without touching the records, and
    /// enters each score that came out in the table.
    pub fn process_all_users(&mut self) -> (r: Vec<ScoredRecord>)
        requires
            old(self).wf(),
        ensures
            final(self).wf(),
            final(self).records() == old(self).records(),
            r@.len() == old(self).records().len(),
            forall|i: int| 0 <= i < r@.len() ==> (#[trigger] r@[i]).record@ == old(self).records()[i]
                && r@[i].score == record_score(old(self).records()[i]),
            final(self).scored() == old(self).scored().union(scoreable(old(self).records())),
    {
        let n: usize = self.users.len();
        let mut results: Vec<ScoredRecord> = Vec::new();
        let mut i: usize = 0;
        while i < n
            invariant
                0 <= i <= n,
                n == self.users@.len(),
                results@.len() == i,
                forall|m: int| 0 <= m < i ==> (#[trigger] results@[m]).record@ == self.records()[m]
                    && results@[m].score == record_score(self.records()[m]),
            decreases n - i,
        {
            let user = &self.users[i];
            let score = Self::score(user.as_str());
            results.push(ScoredRecord { record: user.clone(), score });
            i = i + 1;
        }
        let ghost records = self.records();
        let mut k: usize = 0;
        while k < results.len()
            invariant
                0 <= k <= results@.len(),
                results@.len() == records.len(),
                forall|m: int| 0 <= m < results@.len() ==> (#[trigger] results@[m]).record@ == records[m]
                    && results@[m].score == record_score(records[m]),
                self.wf(),
                self.records() == records,
                records == old(self).records(),
                self.scored() == old(self).scored().union(scoreable(records.take(k as int))),
            decreases results@.len() - k,
        {
            let ghost prev = self.scored();
            let entry = &results[k];
            match entry.score {
                Ok(v) => {
                    self.remember(&entry.record, v);
                },
                Err(_) => {},
            }
            assert(scoreable(records.take(k as int + 1)) =~= if record_score(records[k as int]) is Ok {
                scoreable(records.take(k as int)).insert(records[k as int])
            } else {
                scoreable(records.take(k as int))
            }) by {
                let before = records.take(k as int);
                let after = records.take(k as int + 1);
                assert forall|t: Seq<char>| #[trigger] after.contains(t) <==> before.contains(t) || t == records[k as int] by {
                    if after.contains(t) {
                        let m = choose|m: int| 0 <= m < after.len() && after[m] == t;
                        if m < k {
                            assert(before[m] == t);
                        }
                    }
                    if before.contains(t) {
                        let m = choose|m: int| 0 <= m < before.len() && before[m] == t;
                        assert(after[m] == t);
                    }
                    if t == records[k as int] {
                        assert(after[k as int] == t);
                    }
                }
            }
            assert(self.scored() =~= old(self).scored().union(scoreable(records.take(k as int + 1))));
            k = k + 1;
        }
        assert(records.take(records.len() as int) =~= records);
        results
    }

    /// The score the table holds for `record`, if any.
    pub fn score_of(&self, record: &str) -> (r: Option<i32>)
        requires
            self.wf(),
        ensures
            r == (if self.score_table().contains_key(record@) {
                Some(self.score_table()[record@])
            } else {
                None::<i32>
            }),
            r matches Some(v) ==> record_score(record@) == Ok::<i32, ScoreError>(v),
    {
        let key = record.to_owned();
        let mut j: usize = 0;
        while j < self.scores.len()
            invariant
                0 <= j <= self.scores@.len(),
                self.wf(),
                key@ == record@,
                forall|m: int| 0 <= m < j ==> #[trigger] self.scores@[m].0@ != record@,
            decreases self.scores@.len() - j,
        {
            if self.scores[j].0 == key {
                assert(self.scored().contains(record@));
                return Some(self.scores[j].1);
            }
            j = j + 1;
        }
        None
    }

    /// `n!` for `n` up to `MAX_FACTORIAL_INPUT`, 1 for `n <= 0`, computed by
    /// iteration; larger inputs are refused.
    pub fn recursive_function(&self, n: i32) -> (r: Result<u64, ComputeError>)
        ensures
            n > MAX_FACTORIAL_INPUT ==> r == Err::<u64, ComputeError>(ComputeError::OutOfRange),
            n <= MAX_FACTORIAL_INPUT ==> r == Ok::<u64, ComputeError>(factorial(n as int) as u64),
    {
        if n > MAX_FACTORIAL_INPUT {
            return Err(ComputeError::OutOfRange);
        }
        let mut acc: u64 = 1;
        let mut i: i32 = 1;
        while i <= n
            invariant
                n <= MAX_FACTORIAL_INPUT,
                1 <= i,
                i <= n + 1 || i == 1,
                acc as nat == factorial(i - 1),
            decreases n - i + 1,
        {
            proof {
                lemma_factorial_fits(i as int);
                let prev = factorial(i - 1);
                assert(i * prev >= 0) by (nonlinear_arith)
                    requires i >= 1, prev >= 0;
                assert(factorial(i as int) == i * prev);
                assert(acc * i == factorial(i as int));
            }
            acc = acc * (i as u64);
            i = i + 1;
        }
        proof {
            if n <= 0 {
                assert(factorial(0) == 1);
                assert(factorial(n as int) == 1);
                assert(i == 1);
            } else {
                assert(i == n + 1);
            }
        }
        Ok(acc)
    }

    /// The query that looks a user up by `username`: the fixed template,
    /// with `username` carried apart as its bound value.
    pub fn create_query(&self, username: &str) -> (r: LookupQuery)
        ensures
            r.template_text() == lookup_template(),
            r.parameter_text() == username@,
    {
        LookupQuery::new(username)
    }

    /// The record at `index` with its score.
    pub fn process_user(&self, index: usize) -> (r: Result<ScoredRecord, AccessError>)
        ensures
            index < self.records().len() ==> (r matches Ok(s) && s.record@ == self.records()[index as int]
                && s.score == record_score(s.record@)),
            index >= self.records().len() ==> r == Err::<ScoredRecord, AccessError>(AccessError::OutOfBounds),
    {
        match self.get(index) {
            Ok(user) => {
                let score = Self::score(user.as_str());
                Ok(ScoredRecord { record: user.clone(), score })
            },
            Err(e) => Err(e),
        }
    }
}

} // verus!
