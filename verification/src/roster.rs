//! The ordered roster engine: characters kept in non-increasing order of
//! initiative score with stable insertion, a circular turn cursor, name
//! lookup, and the bulk import / export mappings over plain records.

use vstd::prelude::*;
use crate::character::Character;
use crate::records::{JSONCharacter, record_of, char_of_record};

verus! {

/// The only failure the engine itself reports: an operation that needs a
/// non-empty roster was called on an empty one.
#[derive(Clone, Copy, PartialEq, Eq, Structural, Debug)]
pub enum InitError {
    Empty,
}

/// The roster: characters in non-increasing score order, and the turn
/// cursor as an index into that order (`None` exactly when empty).
pub struct Initiative {
    pub chars: Vec<Character>,
    pub cursor: Option<usize>,
}

/// Mathematical model of a roster: the character sequence and the cursor.
pub struct RosterModel {
    pub chars: Seq<Character>,
    pub cursor: Option<int>,
}

impl View for Initiative {
    type V = RosterModel;

    open spec fn view(&self) -> RosterModel {
        RosterModel {
            chars: self.chars@,
            cursor: match self.cursor {
                Some(i) => Some(i as int),
                None => None,
            },
        }
    }
}

/// Non-increasing initiative score from head to tail.
pub open spec fn sorted_by_score(s: Seq<Character>) -> bool {
    forall|i: int, j: int| 0 <= i <= j < s.len() ==> s[i].score >= s[j].score
}

impl RosterModel {
    /// Roster invariant: sorted, every character well formed, and the
    /// cursor on a live element exactly when the roster is non-empty.
    pub open spec fn wf(self) -> bool {
        &&& sorted_by_score(self.chars)
        &&& (forall|i: int| 0 <= i < self.chars.len() ==> self.chars[i].wf())
        &&& (match self.cursor {
            Some(c) => 0 <= c < self.chars.len(),
            None => self.chars.len() == 0,
        })
    }
}

/// Where a new character of the given score goes: immediately before the
/// first existing character whose score is strictly lower, so that earlier
/// insertions among equal scores stay ahead of later ones.
pub open spec fn insert_pos(s: Seq<Character>, score: u8) -> int
    decreases s.len(),
{
    if s.len() == 0 {
        0
    } else if s[0].score < score {
        0
    } else {
        1 + insert_pos(s.skip(1), score)
    }
}

/// `insert_pos` is the unique index with only scores `>= score` before it
/// and a strictly lower score (if anything) at it.
pub proof fn lemma_insert_pos_props(s: Seq<Character>, score: u8)
    ensures
        0 <= insert_pos(s, score) <= s.len(),
        forall|i: int| 0 <= i < insert_pos(s, score) ==> s[i].score >= score,
        insert_pos(s, score) < s.len() ==> s[insert_pos(s, score)].score < score,
    decreases s.len(),
{
    if s.len() == 0 {
    } else if s[0].score < score {
    } else {
        lemma_insert_pos_props(s.skip(1), score);
        assert forall|i: int| 0 <= i < insert_pos(s, score) implies s[i].score >= score by {
            if i > 0 {
                assert(s.skip(1)[i - 1] == s[i]);
            }
        }
        if insert_pos(s, score) < s.len() {
            assert(s.skip(1)[insert_pos(s.skip(1), score)] == s[insert_pos(s, score)]);
        }
    }
}

/// Any index satisfying the characterization of `insert_pos` equals it.
pub proof fn lemma_insert_pos_unique(s: Seq<Character>, score: u8, k: int)
    requires
        0 <= k <= s.len(),
        forall|i: int| 0 <= i < k ==> s[i].score >= score,
        k < s.len() ==> s[k].score < score,
    ensures
        k == insert_pos(s, score),
{
    lemma_insert_pos_props(s, score);
    let p = insert_pos(s, score);
    if p < k {
        assert(s[p].score >= score);
    } else if k < p {
        assert(s[k].score >= score);
    }
}

/// The cursor after an insertion at index `k`: a cursor that pointed into
/// the empty roster's place comes up at the head; otherwise it keeps
/// pointing at the same character, shifting right when the insertion lands
/// at or before it.
pub open spec fn add_cursor(cur: Option<int>, k: int) -> Option<int> {
    match cur {
        None => Some(0int),
        Some(c) => if k <= c {
            Some(c + 1)
        } else {
            Some(c)
        },
    }
}

/// The roster after inserting one character at its sorted, stable position.
pub open spec fn add_model(m: RosterModel, c: Character) -> RosterModel {
    let k = insert_pos(m.chars, c.score);
    RosterModel { chars: m.chars.insert(k, c), cursor: add_cursor(m.cursor, k) }
}

/// Inserting at `insert_pos` keeps the sequence sorted.
pub proof fn lemma_add_preserves_sorted(s: Seq<Character>, c: Character)
    requires
        sorted_by_score(s),
    ensures
        sorted_by_score(s.insert(insert_pos(s, c.score), c)),
{
    lemma_insert_pos_props(s, c.score);
    let k = insert_pos(s, c.score);
    let t = s.insert(k, c);
    assert forall|i: int, j: int| 0 <= i <= j < t.len() implies t[i].score >= t[j].score by {
        if i < k {
            assert(t[i] == s[i]);
        } else if i == k {
            assert(t[i] == c);
        } else {
            assert(t[i] == s[i - 1]);
        }
        if j < k {
            assert(t[j] == s[j]);
        } else if j == k {
            assert(t[j] == c);
        } else {
            assert(t[j] == s[j - 1]);
        }
    }
}

/// The index of the first character whose name matches, scanning from the
/// head, or `None` when no name matches.
pub open spec fn spec_find(s: Seq<Character>, name: Seq<char>) -> Option<int>
    decreases s.len(),
{
    if s.len() == 0 {
        None
    } else if s[0].name@ == name {
        Some(0int)
    } else {
        match spec_find(s.skip(1), name) {
            Some(i) => Some(i + 1),
            None => None,
        }
    }
}

/// `spec_find` returns the first match: a live index bearing the name with
/// no earlier match, or `None` exactly when no index bears the name.
pub proof fn lemma_spec_find_props(s: Seq<Character>, name: Seq<char>)
    ensures
        match spec_find(s, name) {
            Some(i) => 0 <= i < s.len() && s[i].name@ == name && (forall|j: int|
                0 <= j < i ==> s[j].name@ != name),
            None => forall|j: int| 0 <= j < s.len() ==> s[j].name@ != name,
        },
    decreases s.len(),
{
    if s.len() == 0 {
    } else if s[0].name@ == name {
    } else {
        lemma_spec_find_props(s.skip(1), name);
        assert forall|j: int| 0 <= j < s.len() && s[j].name@ == name implies (
        spec_find(s, name) matches Some(i) && j >= i) by {
            if j > 0 {
                assert(s.skip(1)[j - 1] == s[j]);
            }
        }
        if spec_find(s, name) is Some {
            let i = spec_find(s.skip(1), name)->Some_0;
            assert(s.skip(1)[i] == s[i + 1]);
        }
    }
}

/// Any result satisfying the first-match characterization equals
/// `spec_find`.
pub proof fn lemma_spec_find_unique(s: Seq<Character>, name: Seq<char>, r: Option<int>)
    requires
        match r {
            Some(i) => 0 <= i < s.len() && s[i].name@ == name && (forall|j: int|
                0 <= j < i ==> s[j].name@ != name),
            None => forall|j: int| 0 <= j < s.len() ==> s[j].name@ != name,
        },
    ensures
        r == spec_find(s, name),
{
    lemma_spec_find_props(s, name);
    match (r, spec_find(s, name)) {
        (Some(i), Some(p)) => {
            if i < p {
                assert(s[i].name@ != name);
            } else if p < i {
                assert(s[p].name@ != name);
            }
        },
        (Some(i), None) => {
            assert(s[i].name@ != name);
        },
        (None, Some(p)) => {
            assert(s[p].name@ != name);
        },
        (None, None) => {},
    }
}

/// The roster after dealing damage by name: the first character matching
/// the name takes the damage; with no match nothing changes. The cursor
/// never moves.
pub open spec fn damage_model(m: RosterModel, name: Seq<char>, amount: u16) -> RosterModel {
    match spec_find(m.chars, name) {
        None => m,
        Some(i) => RosterModel {
            chars: m.chars.update(i, m.chars[i].spec_damage(amount)),
            cursor: m.cursor,
        },
    }
}

/// The roster after healing by name, as [`damage_model`] with healing.
pub open spec fn heal_model(m: RosterModel, name: Seq<char>, amount: u16) -> RosterModel {
    match spec_find(m.chars, name) {
        None => m,
        Some(i) => RosterModel {
            chars: m.chars.update(i, m.chars[i].spec_heal(amount)),
            cursor: m.cursor,
        },
    }
}

/// The roster after a temporary-hit-point grant by name, as
/// [`damage_model`] with the grant.
pub open spec fn grant_temp_model(m: RosterModel, name: Seq<char>, amount: u16) -> RosterModel {
    match spec_find(m.chars, name) {
        None => m,
        Some(i) => RosterModel {
            chars: m.chars.update(i, m.chars[i].spec_grant_temp(amount)),
            cursor: m.cursor,
        },
    }
}

/// The cursor after removing the element at `idx` from a roster whose new
/// length is `newlen`: a cursor elsewhere keeps pointing at its character;
/// a cursor on the removed element moves to the successor, or to the head
/// when the tail was removed, or away entirely when the roster empties.
pub open spec fn remove_cursor(cur: Option<int>, idx: int, newlen: int) -> Option<int> {
    match cur {
        None => None,
        Some(c) => if c < idx {
            Some(c)
        } else if c > idx {
            Some(c - 1)
        } else if newlen == 0 {
            None
        } else if idx < newlen {
            Some(idx)
        } else {
            Some(0int)
        },
    }
}

/// The roster after removing the first character matching the name; with
/// no match nothing changes.
pub open spec fn remove_model(m: RosterModel, name: Seq<char>) -> RosterModel {
    match spec_find(m.chars, name) {
        None => m,
        Some(idx) => RosterModel {
            chars: m.chars.remove(idx),
            cursor: remove_cursor(m.cursor, idx, m.chars.len() - 1),
        },
    }
}

/// The roster after one cursor step: to the successor, wrapping from the
/// tail to the head; the empty roster stays put.
pub open spec fn advance_model(m: RosterModel) -> RosterModel {
    RosterModel {
        chars: m.chars,
        cursor: match m.cursor {
            None => None,
            Some(c) => if c + 1 < m.chars.len() {
                Some(c + 1)
            } else {
                Some(0int)
            },
        },
    }
}

/// The roster with the cursor back at the head (unchanged when empty).
pub open spec fn beginning_model(m: RosterModel) -> RosterModel {
    RosterModel {
        chars: m.chars,
        cursor: if m.chars.len() > 0 {
            Some(0int)
        } else {
            None
        },
    }
}

/// The record sequence that exporting a roster produces, head to tail.
pub open spec fn export_records(s: Seq<Character>) -> Seq<JSONCharacter> {
    Seq::new(s.len(), |i: int| record_of(s[i]))
}

/// The characters that a record sequence and its separately supplied
/// scores build, record by record.
pub open spec fn chars_of(records: Seq<JSONCharacter>, scores: Seq<u8>) -> Seq<Character> {
    Seq::new(records.len(), |i: int| char_of_record(records[i], scores[i]))
}

/// The roster after inserting each character of `cs` in turn.
pub open spec fn add_all_model(m: RosterModel, cs: Seq<Character>) -> RosterModel
    decreases cs.len(),
{
    if cs.len() == 0 {
        m
    } else {
        add_all_model(add_model(m, cs[0]), cs.skip(1))
    }
}

/// The roster after a bulk import: every record becomes a character (score
/// supplied per record) and is inserted in input order.
pub open spec fn import_model(m: RosterModel, records: Seq<JSONCharacter>, scores: Seq<u8>) -> RosterModel {
    add_all_model(m, chars_of(records, scores))
}

/// Inserting a batch and then one more is inserting into the batch's
/// result.
pub proof fn lemma_add_all_snoc(m: RosterModel, cs: Seq<Character>, c: Character)
    ensures
        add_all_model(m, cs.push(c)) == add_model(add_all_model(m, cs), c),
    decreases cs.len(),
{
    if cs.len() == 0 {
        assert(cs.push(c).skip(1) =~= Seq::<Character>::empty());
        assert(cs.push(c)[0] == c);
        assert(add_all_model(m, cs.push(c)) == add_all_model(
            add_model(m, c),
            Seq::<Character>::empty(),
        ));
        assert(add_all_model(add_model(m, c), Seq::<Character>::empty()) == add_model(m, c));
    } else {
        assert(cs.push(c)[0] == cs[0]);
        assert(cs.push(c).skip(1) =~= cs.skip(1).push(c));
        lemma_add_all_snoc(add_model(m, cs[0]), cs.skip(1), c);
        assert(add_all_model(m, cs.push(c)) == add_all_model(
            add_model(m, cs[0]),
            cs.skip(1).push(c),
        ));
        assert(add_all_model(m, cs) == add_all_model(add_model(m, cs[0]), cs.skip(1)));
    }
}

/// Replacing one character by another of the same score keeps the order;
/// if the replacement is also well formed the whole invariant holds.
proof fn lemma_update_same_score_wf(m: RosterModel, i: int, c: Character)
    requires
        m.wf(),
        0 <= i < m.chars.len(),
        c.score == m.chars[i].score,
        c.wf(),
    ensures
        (RosterModel { chars: m.chars.update(i, c), cursor: m.cursor }).wf(),
{
}

impl Initiative {
    pub fn new() -> (r: Initiative)
        ensures
            r@.chars.len() == 0,
            r@.cursor is None,
            r@.wf(),
    {
        Initiative { chars: Vec::new(), cursor: None }
    }

    /// Insert `c` immediately before the first character whose score is
    /// strictly lower (stable among equal scores; new head if its score
    /// beats every existing one). An insertion into the empty roster puts
    /// the cursor on the new head; otherwise the cursor stays on the
    /// character it pointed at.
    pub fn add(&mut self, c: Character)
        requires
            old(self)@.wf(),
            c.wf(),
        ensures
            final(self)@ == add_model(old(self)@, c),
            final(self)@.wf(),
    {
        let ghost s = self.chars@;
        let mut k: usize = 0;
        while k < self.chars.len() && self.chars[k].score >= c.score
            invariant
                self.chars@ == s,
                0 <= k <= s.len(),
                forall|i: int| 0 <= i < k ==> s[i].score >= c.score,
            decreases s.len() - k,
        {
            k = k + 1;
        }
        proof {
            lemma_insert_pos_unique(s, c.score, k as int);
            lemma_add_preserves_sorted(s, c);
        }
        self.chars.insert(k, c);
        match self.cursor {
            None => {
                self.cursor = Some(0);
            },
            Some(cur) => {
                if k <= cur {
                    self.cursor = Some(cur + 1);
                }
            },
        }
    }

    /// Linear scan from the head for the first character whose name matches
    /// exactly (case-sensitive), returning its index.
    pub fn find(&self, name: String) -> (r: Option<usize>)
        ensures
            match r {
                Some(i) => spec_find(self@.chars, name@) == Some(i as int),
                None => spec_find(self@.chars, name@) is None,
            },
    {
        let mut i: usize = 0;
        while i < self.chars.len()
            invariant
                0 <= i <= self.chars@.len(),
                forall|j: int| 0 <= j < i ==> self.chars@[j].name@ != name@,
            decreases self.chars@.len() - i,
        {
            if self.chars[i].name == name {
                proof {
                    lemma_spec_find_unique(self.chars@, name@, Some(i as int));
                }
                return Some(i);
            }
            i = i + 1;
        }
        proof {
            lemma_spec_find_unique(self.chars@, name@, None);
        }
        None
    }

    /// Deal damage to the first character matching `name`; a miss is a
    /// silent no-op.
    pub fn damage(&mut self, name: String, amount: u16)
        requires
            old(self)@.wf(),
        ensures
            final(self)@ == damage_model(old(self)@, name@, amount),
            final(self)@.wf(),
    {
        let ghost n = name@;
        let target = self.find(name);
        if let Some(i) = target {
            proof {
                lemma_spec_find_props(self.chars@, n);
                lemma_update_same_score_wf(
                    self@,
                    i as int,
                    self.chars@[i as int].spec_damage(amount),
                );
            }
            let c = &mut self.chars[i];
            c.damage(amount);
        }
    }

    /// Heal the first character matching `name`; a miss is a silent no-op.
    pub fn heal(&mut self, name: String, amount: u16)
        requires
            old(self)@.wf(),
        ensures
            final(self)@ == heal_model(old(self)@, name@, amount),
            final(self)@.wf(),
    {
        let ghost n = name@;
        let target = self.find(name);
        if let Some(i) = target {
            proof {
                lemma_spec_find_props(self.chars@, n);
                lemma_update_same_score_wf(
                    self@,
                    i as int,
                    self.chars@[i as int].spec_heal(amount),
                );
            }
            let c = &mut self.chars[i];
            c.heal(amount);
        }
    }

    /// Overwrite the temporary hit points of the first character matching
    /// `name`; a miss is a silent no-op.
    pub fn temp(&mut self, name: String, amount: u16)
        requires
            old(self)@.wf(),
        ensures
            final(self)@ == grant_temp_model(old(self)@, name@, amount),
            final(self)@.wf(),
    {
        let ghost n = name@;
        let target = self.find(name);
        if let Some(i) = target {
            proof {
                lemma_spec_find_props(self.chars@, n);
                lemma_update_same_score_wf(
                    self@,
                    i as int,
                    self.chars@[i as int].spec_grant_temp(amount),
                );
            }
            let c = &mut self.chars[i];
            c.grant_temp(amount);
        }
    }

    /// Remove the first character matching `name`. On the empty roster this
    /// reports [`InitError::Empty`]; otherwise it succeeds, a miss being a
    /// silent no-op. A cursor on the removed character moves to its
    /// successor, wrapping to the head if the tail was removed, or to
    /// "none" if the roster empties.
    pub fn remove(&mut self, name: String) -> (r: Result<(), InitError>)
        requires
            old(self)@.wf(),
        ensures
            final(self)@.wf(),
            old(self)@.chars.len() == 0 ==> r == Err::<(), InitError>(InitError::Empty)
                && *final(self) == *old(self),
            old(self)@.chars.len() > 0 ==> r == Ok::<(), InitError>(())
                && final(self)@ == remove_model(old(self)@, name@),
    {
        if self.chars.len() == 0 {
            return Err(InitError::Empty);
        }
        let ghost n = name@;
        let target = self.find(name);
        match target {
            None => Ok(()),
            Some(i) => {
                proof {
                    lemma_spec_find_props(self.chars@, n);
                }
                self.chars.remove(i);
                match self.cursor {
                    None => {
                        assert(false);
                    },
                    Some(cur) => {
                        if cur > i {
                            self.cursor = Some(cur - 1);
                        } else if cur == i {
                            if self.chars.len() == 0 {
                                self.cursor = None;
                            } else if i >= self.chars.len() {
                                self.cursor = Some(0);
                            }
                        }
                    },
                }
                Ok(())
            },
        }
    }

    /// Move the cursor to its successor, wrapping from the tail to the
    /// head; a no-op on the empty roster.
    pub fn advance(&mut self)
        requires
            old(self)@.wf(),
        ensures
            final(self)@ == advance_model(old(self)@),
            final(self)@.wf(),
    {
        match self.cursor {
            None => {},
            Some(cur) => {
                let len = self.chars.len();
                assert(cur < len);
                if cur < len - 1 {
                    self.cursor = Some(cur + 1);
                } else {
                    self.cursor = Some(0);
                }
            },
        }
    }

    /// Move the cursor back to the head (restart the round); a no-op on
    /// the empty roster.
    pub fn beginning(&mut self)
        requires
            old(self)@.wf(),
        ensures
            final(self)@ == beginning_model(old(self)@),
            final(self)@.wf(),
    {
        if self.chars.len() > 0 {
            self.cursor = Some(0);
        }
    }

    /// The character whose turn it is, or `None` on the empty roster.
    pub fn current(&self) -> (r: Option<&Character>)
        requires
            self@.wf(),
        ensures
            match r {
                Some(c) => self@.cursor matches Some(i) && *c == self@.chars[i],
                None => self@.cursor is None,
            },
    {
        match self.cursor {
            None => None,
            Some(i) => Some(&self.chars[i]),
        }
    }

    /// Produce the roster, head to tail, as persisted records — keeping
    /// `max` as `hp` and dropping `current`, `score` and `temp` (the
    /// documented lossy export). Fails on the empty roster, producing
    /// nothing.
    pub fn export(&self) -> (r: Result<Vec<JSONCharacter>, InitError>)
        ensures
            match r {
                Ok(v) => self@.chars.len() > 0 && v@ == export_records(self@.chars),
                Err(e) => self@.chars.len() == 0 && e == InitError::Empty,
            },
    {
        if self.chars.len() == 0 {
            return Err(InitError::Empty);
        }
        let mut out: Vec<JSONCharacter> = Vec::new();
        let mut i: usize = 0;
        while i < self.chars.len()
            invariant
                0 <= i <= self.chars@.len(),
                out@ == export_records(self.chars@).subrange(0, i as int),
            decreases self.chars@.len() - i,
        {
            let c = &self.chars[i];
            let rec = JSONCharacter { name: c.name.clone(), ac: c.ac, hp: c.max };
            proof {
                assert(out@.push(rec) =~= export_records(self.chars@).subrange(0, i as int + 1));
            }
            out.push(rec);
            i = i + 1;
        }
        proof {
            assert(export_records(self.chars@).subrange(0, self.chars@.len() as int) =~= export_records(
                self.chars@,
            ));
        }
        Ok(out)
    }

    /// Bulk import: record by record in input order, each with its
    /// separately supplied score, inserted as by [`Initiative::add`]. The
    /// caller hands over fully parsed records, so a malformed source never
    /// reaches the roster.
    pub fn import(&mut self, records: &Vec<JSONCharacter>, scores: &Vec<u8>)
        requires
            old(self)@.wf(),
            scores@.len() == records@.len(),
        ensures
            final(self)@ == import_model(old(self)@, records@, scores@),
            final(self)@.wf(),
    {
        let ghost m0 = self@;
        let ghost cs = chars_of(records@, scores@);
        let mut i: usize = 0;
        while i < records.len()
            invariant
                self@.wf(),
                0 <= i <= records@.len(),
                scores@.len() == records@.len(),
                cs == chars_of(records@, scores@),
                self@ == add_all_model(m0, cs.take(i as int)),
            decreases records@.len() - i,
        {
            let c = Character::from_record(&records[i], scores[i]);
            proof {
                assert(cs.take(i as int).push(c) =~= cs.take(i as int + 1));
                lemma_add_all_snoc(m0, cs.take(i as int), c);
            }
            self.add(c);
            i = i + 1;
        }
        proof {
            assert(cs.take(records@.len() as int) =~= cs);
        }
    }
}

/// The empty roster: no characters, no cursor.
pub open spec fn empty_model() -> RosterModel {
    RosterModel { chars: Seq::<Character>::empty(), cursor: None }
}

/// Stability among equal scores: inserting `a` and then `b` with the same
/// score into any sorted roster leaves `a` strictly ahead of `b`, so
/// earlier insertions among equals stay ahead of later ones.
pub proof fn lemma_insert_stable(m: RosterModel, a: Character, b: Character)
    requires
        sorted_by_score(m.chars),
        a.score == b.score,
    ensures
        ({
            let m2 = add_model(add_model(m, a), b);
            let k1 = insert_pos(m.chars, a.score);
            let k2 = insert_pos(add_model(m, a).chars, b.score);
            &&& k1 < k2
            &&& m2.chars[k1] == a
            &&& m2.chars[k2] == b
        }),
{
    lemma_insert_pos_props(m.chars, a.score);
    let k1 = insert_pos(m.chars, a.score);
    let m1 = add_model(m, a);
    lemma_insert_pos_props(m1.chars, b.score);
    let k2 = insert_pos(m1.chars, b.score);
    assert(m1.chars[k1] == a);
    assert(forall|i: int| 0 <= i <= k1 ==> m1.chars[i].score >= b.score);
    if k2 <= k1 {
        assert(m1.chars[k2].score < b.score);
        assert(false);
    }
    assert(add_model(m1, b).chars[k1] == m1.chars[k1]);
    assert(add_model(m1, b).chars[k2] == b);
}

/// Inserting a batch that sorts entirely at or below an already sorted
/// roster appends it in order: the characters end up concatenated, and the
/// cursor comes up at the head exactly when the roster was empty and the
/// batch is not.
pub proof fn lemma_add_all_sorted_appends(m: RosterModel, cs: Seq<Character>)
    requires
        sorted_by_score(m.chars + cs),
        match m.cursor {
            Some(cur) => 0 <= cur < m.chars.len(),
            None => true,
        },
    ensures
        add_all_model(m, cs).chars == m.chars + cs,
        add_all_model(m, cs).cursor == (if m.cursor is Some {
            m.cursor
        } else if cs.len() > 0 {
            Some(0int)
        } else {
            None
        }),
    decreases cs.len(),
{
    if cs.len() == 0 {
        assert(m.chars + cs =~= m.chars);
    } else {
        let c = cs[0];
        assert forall|i: int| 0 <= i < m.chars.len() implies m.chars[i].score >= c.score by {
            assert((m.chars + cs)[i] == m.chars[i]);
            assert((m.chars + cs)[m.chars.len() as int] == c);
        }
        lemma_insert_pos_unique(m.chars, c.score, m.chars.len() as int);
        let m1 = add_model(m, c);
        assert(m1.chars =~= m.chars.push(c));
        assert(m1.chars + cs.skip(1) =~= m.chars + cs);
        lemma_add_all_sorted_appends(m1, cs.skip(1));
    }
}

/// Round trip: exporting a roster and importing the record set into the
/// empty roster, supplying each record's original score, reproduces every
/// character's name, armor class and hit-point ceiling in the same order,
/// at full health and with no temporary buffer — `current` and `temp` are
/// the documented losses of the export schema.
pub proof fn lemma_export_import_round_trip(m: RosterModel, scores: Seq<u8>)
    requires
        m.wf(),
        scores.len() == m.chars.len(),
        forall|i: int| 0 <= i < scores.len() ==> scores[i] == m.chars[i].score,
    ensures
        ({
            let imported = import_model(empty_model(), export_records(m.chars), scores);
            &&& imported.chars.len() == m.chars.len()
            &&& (forall|i: int| 0 <= i < m.chars.len() ==> {
                let c = #[trigger] imported.chars[i];
                &&& c.name == m.chars[i].name
                &&& c.ac == m.chars[i].ac
                &&& c.max == m.chars[i].max
                &&& c.current == m.chars[i].max
                &&& c.score == m.chars[i].score
                &&& c.temp == 0
            })
            &&& imported.cursor == (if m.chars.len() > 0 {
                Some(0int)
            } else {
                None
            })
        }),
{
    let cs = chars_of(export_records(m.chars), scores);
    assert(forall|i: int| 0 <= i < cs.len() ==> #[trigger] cs[i].score == m.chars[i].score);
    assert(empty_model().chars + cs =~= cs);
    assert(sorted_by_score(empty_model().chars + cs));
    lemma_add_all_sorted_appends(empty_model(), cs);
    assert(import_model(empty_model(), export_records(m.chars), scores).chars =~= cs);
}

} // verus!
