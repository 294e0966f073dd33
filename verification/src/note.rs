//! The note model: statuses, notes, profiles, and their mutation rules.
//!
//! A profile owns an ordered sequence of notes with pairwise distinct ids.
//! A new note always takes the largest id present plus one, so ids are never
//! reused after a deletion.

use vstd::prelude::*;
use crate::args::BoolFlags;
use crate::errors::{Error, ErrorKind};
use crate::text::{str_eq, strip_newlines, strip_newlines_str};
use crate::timestamp::now_timestamp;

verus! {

/// The three states a note can be in; exactly one applies at a time.
#[derive(Clone, Copy, Debug, PartialEq, Eq, Structural)]
pub enum Status {
    Blank,
    Started,
    Urgent,
}

/// One note: an id unique within its profile, a title with newlines
/// stripped, a status, a free-form body, and a last-touched timestamp.
#[derive(Clone, Debug)]
pub struct Item {
    pub id: usize,
    pub title: String,
    pub status: Status,
    pub body: String,
    pub last_touched: String,
}

/// The mathematical shape of a note.
#[verifier::ext_equal]
pub ghost struct ItemV {
    pub id: usize,
    pub title: Seq<char>,
    pub status: Status,
    pub body: Seq<char>,
    pub last_touched: Seq<char>,
}

impl View for Item {
    type V = ItemV;

    open spec fn view(&self) -> ItemV {
        ItemV {
            id: self.id,
            title: self.title@,
            status: self.status,
            body: self.body@,
            last_touched: self.last_touched@,
        }
    }
}

/// One profile: whether it is stored encrypted, and its notes.
#[derive(Clone, Debug)]
pub struct Profile {
    pub encrypted: bool,
    pub notes: Vec<Item>,
}

/// The mathematical shape of a profile.
#[verifier::ext_equal]
pub ghost struct ProfileV {
    pub encrypted: bool,
    pub notes: Seq<ItemV>,
}

impl View for Profile {
    type V = ProfileV;

    open spec fn view(&self) -> ProfileV {
        ProfileV { encrypted: self.encrypted, notes: self.notes@.map_values(|it: Item| it@) }
    }
}

/// The mathematical shapes of a batch of notes.
pub open spec fn views_of(items: Seq<Item>) -> Seq<ItemV> {
    items.map_values(|it: Item| it@)
}

/// The largest id present, or zero when there are no notes.
pub open spec fn max_id(notes: Seq<ItemV>) -> int
    decreases notes.len(),
{
    if notes.len() == 0 {
        0
    } else {
        let m = max_id(notes.drop_last());
        if notes.last().id > m {
            notes.last().id as int
        } else {
            m
        }
    }
}

/// Whether some note carries this id.
pub open spec fn has_id(notes: Seq<ItemV>, id: usize) -> bool {
    exists|i: int| 0 <= i < notes.len() && notes[i].id == id
}

/// The first position holding this id, or `-1` when there is none.
pub open spec fn find_id(notes: Seq<ItemV>, id: usize) -> int
    decreases notes.len(),
{
    if notes.len() == 0 {
        -1
    } else if notes[0].id == id {
        0
    } else {
        let r = find_id(notes.drop_first(), id);
        if r < 0 {
            -1
        } else {
            r + 1
        }
    }
}

/// All ids pairwise distinct: the profile invariant.
pub open spec fn distinct_ids(notes: Seq<ItemV>) -> bool {
    forall|i: int, j: int| 0 <= i < j < notes.len() ==> notes[i].id != notes[j].id
}

/// How many notes carry this status.
pub open spec fn count_status(notes: Seq<ItemV>, st: Status) -> int
    decreases notes.len(),
{
    if notes.len() == 0 {
        0
    } else {
        count_status(notes.drop_last(), st) + if notes.last().status == st {
            1int
        } else {
            0int
        }
    }
}

/// `find_id` lands on a position that carries the id, and is `-1`
/// exactly when no position does.
pub proof fn lemma_find_id(notes: Seq<ItemV>, id: usize)
    ensures
        find_id(notes, id) >= 0 ==> find_id(notes, id) < notes.len() && notes[find_id(
            notes,
            id,
        )].id == id,
        find_id(notes, id) >= 0 <==> has_id(notes, id),
        find_id(notes, id) >= 0 ==> forall|j: int|
            0 <= j < find_id(notes, id) ==> notes[j].id != id,
    decreases notes.len(),
{
    if notes.len() > 0 && notes[0].id != id {
        lemma_find_id(notes.drop_first(), id);
        if has_id(notes, id) {
            let i = choose|i: int| 0 <= i < notes.len() && notes[i].id == id;
            assert(notes.drop_first()[i - 1] == notes[i]);
        }
        if find_id(notes.drop_first(), id) >= 0 {
            let r = find_id(notes.drop_first(), id);
            assert(notes[r + 1] == notes.drop_first()[r]);
            assert forall|j: int| 0 <= j < r + 1 implies notes[j].id != id by {
                if j > 0 {
                    assert(notes[j] == notes.drop_first()[j - 1]);
                }
            }
        }
    }
}

impl Profile {
    /// A brand-new profile: no notes, and the fingerprint sentinel `0`,
    /// which tells `save_conflict` that there is no prior file to compare
    /// against.
    pub fn create_new(encrypted: bool) -> (r: (Profile, u64))
        ensures
            r.0.encrypted == encrypted,
            r.0@.notes.len() == 0,
            r.1 == 0,
    {
        (Profile { encrypted, notes: Vec::new() }, 0)
    }

    /// The largest id present plus one: the id the next note will take.
    fn next_id(&self) -> (r: usize)
        requires
            max_id(self@.notes) < usize::MAX,
        ensures
            r == max_id(self@.notes) + 1,
    {
        let ghost notesv = self@.notes;
        let mut m: usize = 0;
        let mut i: usize = 0;
        proof {
            assert(notesv.take(0int) =~= Seq::<ItemV>::empty());
        }
        while i < self.notes.len()
            invariant
                i <= self.notes@.len(),
                notesv == self@.notes,
                notesv.len() == self.notes@.len(),
                m == max_id(notesv.take(i as int)),
                max_id(notesv) < usize::MAX,
                m <= usize::MAX,
            decreases self.notes@.len() - i,
        {
            let id = self.notes[i].id;
            proof {
                assert(notesv.take(i + 1int).drop_last() =~= notesv.take(i as int));
                assert(notesv.take(i + 1int).last() == notesv[i as int]);
                assert(notesv[i as int] == self.notes@[i as int]@);
                lemma_max_id_take_bound(notesv, i + 1int);
            }
            if id > m {
                m = id;
            }
            i = i + 1;
        }
        proof {
            assert(notesv.take(notesv.len() as int) =~= notesv);
        }
        m + 1
    }

    /// Append a note built from these parts; its id is the largest present
    /// plus one and its timestamp is the clock's current rendering.
    fn push_note(&mut self, title: String, body: String, status: Status)
        requires
            max_id(old(self)@.notes) < usize::MAX,
        ensures
            final(self).encrypted == old(self).encrypted,
            final(self)@.notes.len() == old(self)@.notes.len() + 1,
            final(self)@.notes.take(old(self)@.notes.len() as int) =~= old(self)@.notes,
            final(self)@.notes.last().id == max_id(old(self)@.notes) + 1,
            final(self)@.notes.last().title == title@,
            final(self)@.notes.last().status == status,
            final(self)@.notes.last().body == body@,
    {
        let id = self.next_id();
        let item = Item { id, title, status, body, last_touched: now_timestamp() };
        let ghost oldnotes = self@.notes;
        self.notes.push(item);
        proof {
            assert(self@.notes =~= oldnotes.push(item@));
            assert(self@.notes.take(oldnotes.len() as int) =~= oldnotes);
        }
    }

    /// Add a note.
    ///
    /// The title loses its newlines; the body is the first entry of `body`
    /// or empty; a missing status means `Blank`.  On an empty profile the
    /// new note gets id `1`; otherwise it gets the largest id present plus
    /// one.  Reading a body interactively is the caller's job: it hands the
    /// captured text in `body` and passes `use_stdin` and `use_editor` as
    /// false.  The caller also prints any confirmation; `print_msg` is kept
    /// for it and ignored here.
    pub fn add_note(
        &mut self,
        title: &str,
        body: &[String],
        status: Option<Status>,
        use_stdin: bool,
        use_editor: bool,
        print_msg: bool,
    ) -> (r: Result<(), Error>)
        requires
            !use_stdin,
            !use_editor,
            max_id(old(self)@.notes) < usize::MAX,
        ensures
            r is Ok,
            final(self).encrypted == old(self).encrypted,
            final(self)@.notes.len() == old(self)@.notes.len() + 1,
            final(self)@.notes.take(old(self)@.notes.len() as int) =~= old(self)@.notes,
            final(self)@.notes.last().id == max_id(old(self)@.notes) + 1,
            final(self)@.notes.last().title == strip_newlines(title@),
            final(self)@.notes.last().status == (match status {
                Some(s) => s,
                None => Status::Blank,
            }),
            final(self)@.notes.last().body == (if body@.len() == 0 {
                Seq::<char>::empty()
            } else {
                body@[0]@
            }),
    {
        let _ = print_msg;
        let t = strip_newlines_str(title);
        let b = if body.len() == 0 {
            String::new()
        } else {
            body[0].clone()
        };
        let st = match status {
            Some(s) => s,
            None => Status::Blank,
        };
        self.push_note(t, b, st);
        Ok(())
    }

    /// Remove every note, provided the caller has confirmed; `yes` is that
    /// confirmation.  Declining is a `UserCancelled` error and leaves the
    /// profile as it was.
    pub fn clear(&mut self, yes: bool) -> (r: Result<(), Error>)
        ensures
            yes ==> r is Ok && final(self).encrypted == old(self).encrypted
                && final(self)@.notes.len() == 0,
            !yes ==> r is Err && r->Err_0.kind == ErrorKind::UserCancelled && *final(self)
                == *old(self),
    {
        if !yes {
            return Err(Error::new(ErrorKind::UserCancelled, "ok bye"));
        }
        self.notes.clear();
        proof {
            assert(self@.notes =~= Seq::<ItemV>::empty());
        }
        Ok(())
    }
}

/// What deleting a batch of ids does, one requested id at a time: each step
/// removes the first note carrying that id, if any.
pub open spec fn remove_first(notes: Seq<ItemV>, x: usize) -> Seq<ItemV> {
    let p = find_id(notes, x);
    if p >= 0 {
        notes.remove(p)
    } else {
        notes
    }
}

/// `remove_first` applied for each requested id in order.
pub open spec fn remove_ids(notes: Seq<ItemV>, ids: Seq<usize>) -> Seq<ItemV>
    decreases ids.len(),
{
    if ids.len() == 0 {
        notes
    } else {
        remove_ids(remove_first(notes, ids[0]), ids.drop_first())
    }
}

impl Profile {
    /// The first position of the note with this id, if any.
    pub fn find_note(&self, id: usize) -> (r: Option<usize>)
        ensures
            r matches Some(i) ==> i == find_id(self@.notes, id) && i < self@.notes.len()
                && self@.notes[i as int].id == id,
            r is None ==> !has_id(self@.notes, id),
    {
        let ghost notesv = self@.notes;
        let mut i: usize = 0;
        while i < self.notes.len()
            invariant
                i <= notesv.len(),
                notesv == self@.notes,
                notesv.len() == self.notes@.len(),
                forall|j: int| 0 <= j < i ==> notesv[j].id != id,
            decreases notesv.len() - i,
        {
            if self.notes[i].id == id {
                proof {
                    lemma_find_id(notesv, id);
                }
                return Some(i);
            }
            i = i + 1;
        }
        proof {
            lemma_find_id(notesv, id);
        }
        None
    }

    /// Edit the note with this id, which fails with a `ValidationError` when
    /// no note carries it.
    ///
    /// Only the parts actually supplied change: an empty title keeps the old
    /// title (a supplied one loses its newlines), a missing status keeps the
    /// old status, an empty body list keeps the old body.  The timestamp is
    /// refreshed.  Interactive input is the caller's job: it resolves stdin
    /// and editor text into `body` first and passes `use_stdin` false,
    /// `flags.editor` false, and a title other than a lone dash.
    pub fn edit_note(
        &mut self,
        id: usize,
        title: &str,
        body: &[String],
        status: Option<Status>,
        use_stdin: bool,
        flags: BoolFlags,
    ) -> (r: Result<(), Error>)
        requires
            !use_stdin,
            !flags.editor,
            title@ != seq!['-'],
        ensures
            !has_id(old(self)@.notes, id) ==> r is Err && r->Err_0.kind
                == ErrorKind::ValidationError && *final(self) == *old(self),
            has_id(old(self)@.notes, id) ==> ({
                let p = find_id(old(self)@.notes, id);
                r is Ok && final(self).encrypted == old(self).encrypted && final(self)@.notes.len() == old(self)@.notes.len() && (forall|j: int|
                    0 <= j < old(self)@.notes.len() && j != p ==> final(self)@.notes[j] == old(
                        self,
                    )@.notes[j]) && final(self)@.notes[p].id == id && final(self)@.notes[p].title
                    == (if title@.len() == 0 {
                    old(self)@.notes[p].title
                } else {
                    strip_newlines(title@)
                }) && final(self)@.notes[p].status == (match status {
                    Some(s) => s,
                    None => old(self)@.notes[p].status,
                }) && final(self)@.notes[p].body == (if body@.len() > 0 {
                    body@[0]@
                } else {
                    old(self)@.notes[p].body
                })
            }),
    {
        let pos = match self.find_note(id) {
            Some(p) => p,
            None => {
                return Err(Error::new(ErrorKind::ValidationError, "note does not exist"));
            },
        };
        let ghost oldnotes = self@.notes;
        let new_title = if title.unicode_len() == 0 {
            self.notes[pos].title.clone()
        } else {
            strip_newlines_str(title)
        };
        let new_status = match status {
            Some(s) => s,
            None => self.notes[pos].status,
        };
        let new_body = if body.len() > 0 {
            body[0].clone()
        } else {
            self.notes[pos].body.clone()
        };
        let item = Item {
            id,
            title: new_title,
            status: new_status,
            body: new_body,
            last_touched: now_timestamp(),
        };
        self.notes[pos] = item;
        proof {
            assert forall|j: int|
                0 <= j < oldnotes.len() && j != pos implies self@.notes[j] == oldnotes[j] by {
                assert(self.notes@[j] == old(self).notes@[j]);
            }
        }
        Ok(())
    }

    /// Delete the notes carrying these ids, one request at a time; a
    /// request whose id is absent is skipped.  The result reports, for each
    /// requested id in order, whether a note was removed for it.
    pub fn delete_note(&mut self, id: &[usize]) -> (r: Vec<bool>)
        ensures
            r@.len() == id@.len(),
            final(self).encrypted == old(self).encrypted,
            final(self)@.notes == remove_ids(old(self)@.notes, id@),
            forall|i: int|
                0 <= i < id@.len() ==> (r@[i] <==> has_id(
                    remove_ids(old(self)@.notes, id@.take(i)),
                    id@[i],
                )),
    {
        let ghost orig = self@.notes;
        let ghost idsv = id@;
        let mut out: Vec<bool> = Vec::new();
        let mut k: usize = 0;
        proof {
            assert(idsv.take(0int) =~= Seq::<usize>::empty());
        }
        while k < id.len()
            invariant
                k <= idsv.len(),
                idsv == id@,
                idsv.len() == id@.len(),
                self.encrypted == old(self).encrypted,
                out@.len() == k,
                self@.notes == remove_ids(orig, idsv.take(k as int)),
                forall|i: int|
                    0 <= i < k ==> (out@[i] <==> has_id(
                        remove_ids(orig, idsv.take(i)),
                        idsv[i],
                    )),
            decreases idsv.len() - k,
        {
            let x = id[k];
            let ghost cur = self@.notes;
            proof {
                lemma_remove_ids_snoc(orig, idsv.take(k as int), x);
                assert(idsv.take(k as int).push(x) =~= idsv.take(k + 1int));
            }
            match self.find_note(x) {
                Some(p) => {
                    self.notes.remove(p);
                    proof {
                        assert(self@.notes =~= cur.remove(p as int));
                        assert(remove_first(cur, x) == cur.remove(p as int));
                    }
                    out.push(true);
                },
                None => {
                    proof {
                        lemma_find_id(cur, x);
                        assert(remove_first(cur, x) == cur);
                    }
                    out.push(false);
                },
            }
            k = k + 1;
        }
        proof {
            assert(idsv.take(idsv.len() as int) =~= idsv);
        }
        out
    }

    /// Move the note with this id from this profile into `dest`.
    ///
    /// Moving a note from a profile to itself (equal profile names) is a
    /// `ValidationError`, and so is an id no note carries; either way both
    /// profiles stay as they were.  On success the note leaves this profile
    /// and `dest` gains a note with the same title, status, and body, under
    /// the id rules of `add_note` applied to `dest`.
    pub fn transfer_note(
        &mut self,
        dest: &mut Profile,
        source_name: &str,
        dest_name: &str,
        id: usize,
    ) -> (r: Result<(), Error>)
        requires
            max_id(old(dest)@.notes) < usize::MAX,
        ensures
            source_name@ == dest_name@ ==> r is Err && r->Err_0.kind == ErrorKind::ValidationError
                && *final(self) == *old(self) && *final(dest) == *old(dest),
            source_name@ != dest_name@ && !has_id(old(self)@.notes, id) ==> r is Err
                && r->Err_0.kind == ErrorKind::ValidationError && *final(self) == *old(self)
                && *final(dest) == *old(dest),
            source_name@ != dest_name@ && has_id(old(self)@.notes, id) ==> ({
                let p = find_id(old(self)@.notes, id);
                r is Ok && final(self).encrypted == old(self).encrypted && final(self)@.notes
                    == old(self)@.notes.remove(p) && final(dest).encrypted == old(dest).encrypted
                    && final(dest)@.notes.len() == old(dest)@.notes.len() + 1 && final(dest)@.notes.take(old(dest)@.notes.len() as int) =~= old(dest)@.notes && final(dest)@.notes.last().id == max_id(old(dest)@.notes) + 1 && final(dest)@.notes.last().title == old(self)@.notes[p].title && final(dest)@.notes.last().status == old(self)@.notes[p].status && final(dest)@.notes.last().body == old(self)@.notes[p].body
            }),
    {
        if str_eq(source_name, dest_name) {
            return Err(
                Error::new(
                    ErrorKind::ValidationError,
                    "cannot transfer a note from a profile to itself",
                ),
            );
        }
        let pos = match self.find_note(id) {
            Some(p) => p,
            None => {
                return Err(Error::new(ErrorKind::ValidationError, "note does not exist"));
            },
        };
        let t = self.notes[pos].title.clone();
        let b = self.notes[pos].body.clone();
        let st = self.notes[pos].status;
        let ghost cur = self@.notes;
        dest.push_note(t, b, st);
        self.notes.remove(pos);
        proof {
            assert(self@.notes =~= cur.remove(pos as int));
        }
        Ok(())
    }

    /// Whether the profile invariant holds: all ids pairwise distinct.
    /// Worth checking after decoding a file this tool did not write.
    pub fn well_formed(&self) -> (r: bool)
        ensures
            r == distinct_ids(self@.notes),
    {
        let ghost notesv = self@.notes;
        let mut i: usize = 0;
        while i < self.notes.len()
            invariant
                i <= notesv.len(),
                notesv == self@.notes,
                notesv.len() == self.notes@.len(),
                forall|a: int, b: int| 0 <= a < b < i ==> notesv[a].id != notesv[b].id,
            decreases notesv.len() - i,
        {
            let mut j: usize = 0;
            while j < i
                invariant
                    j <= i < notesv.len(),
                    notesv == self@.notes,
                    notesv.len() == self.notes@.len(),
                    forall|a: int, b: int| 0 <= a < b < i ==> notesv[a].id != notesv[b].id,
                    forall|a: int| 0 <= a < j ==> notesv[a].id != notesv[i as int].id,
                decreases i - j,
            {
                if self.notes[j].id == self.notes[i].id {
                    proof {
                        assert(notesv[j as int].id == notesv[i as int].id);
                        assert(!distinct_ids(notesv));
                    }
                    return false;
                }
                j = j + 1;
            }
            i = i + 1;
        }
        true
    }

    /// How many notes are blank, started, and urgent, in that order.
    pub fn status_counts(&self) -> (r: (usize, usize, usize))
        ensures
            r.0 == count_status(self@.notes, Status::Blank),
            r.1 == count_status(self@.notes, Status::Started),
            r.2 == count_status(self@.notes, Status::Urgent),
    {
        let ghost notesv = self@.notes;
        let mut blank: usize = 0;
        let mut started: usize = 0;
        let mut urgent: usize = 0;
        let mut i: usize = 0;
        proof {
            assert(notesv.take(0int) =~= Seq::<ItemV>::empty());
            lemma_count_status_bounds(notesv, Status::Blank);
            lemma_count_status_bounds(notesv, Status::Started);
            lemma_count_status_bounds(notesv, Status::Urgent);
        }
        while i < self.notes.len()
            invariant
                i <= notesv.len(),
                notesv == self@.notes,
                notesv.len() == self.notes@.len(),
                blank == count_status(notesv.take(i as int), Status::Blank),
                started == count_status(notesv.take(i as int), Status::Started),
                urgent == count_status(notesv.take(i as int), Status::Urgent),
                count_status(notesv, Status::Blank) <= notesv.len(),
                count_status(notesv, Status::Started) <= notesv.len(),
                count_status(notesv, Status::Urgent) <= notesv.len(),
            decreases notesv.len() - i,
        {
            proof {
                assert(notesv.take(i + 1int).drop_last() =~= notesv.take(i as int));
                assert(notesv.take(i + 1int).last() == notesv[i as int]);
                lemma_count_status_take_bound(notesv, i + 1int, Status::Blank);
                lemma_count_status_take_bound(notesv, i + 1int, Status::Started);
                lemma_count_status_take_bound(notesv, i + 1int, Status::Urgent);
            }
            match self.notes[i].status {
                Status::Blank => {
                    blank = blank + 1;
                },
                Status::Started => {
                    started = started + 1;
                },
                Status::Urgent => {
                    urgent = urgent + 1;
                },
            }
            i = i + 1;
        }
        proof {
            assert(notesv.take(notesv.len() as int) =~= notesv);
        }
        (blank, started, urgent)
    }
}

/// Counts never exceed the number of notes.
proof fn lemma_count_status_bounds(notes: Seq<ItemV>, st: Status)
    ensures
        0 <= count_status(notes, st) <= notes.len(),
    decreases notes.len(),
{
    if notes.len() > 0 {
        lemma_count_status_bounds(notes.drop_last(), st);
    }
}

/// A prefix's count never exceeds the whole sequence's count.
proof fn lemma_count_status_take_bound(notes: Seq<ItemV>, n: int, st: Status)
    requires
        0 <= n <= notes.len(),
    ensures
        count_status(notes.take(n), st) <= count_status(notes, st),
    decreases notes.len(),
{
    if n < notes.len() {
        lemma_count_status_take_bound(notes.drop_last(), n, st);
        assert(notes.drop_last().take(n) =~= notes.take(n));
        lemma_count_status_bounds(notes, st);
        lemma_count_status_bounds(notes.drop_last(), st);
    } else {
        assert(notes.take(n) =~= notes);
    }
}

/// Removing one more id continues where the previous removals stopped.
proof fn lemma_remove_ids_snoc(notes: Seq<ItemV>, ids: Seq<usize>, x: usize)
    ensures
        remove_ids(notes, ids.push(x)) == remove_first(remove_ids(notes, ids), x),
    decreases ids.len(),
{
    if ids.len() == 0 {
        assert(ids.push(x).drop_first() =~= Seq::<usize>::empty());
        assert(remove_ids(remove_first(notes, x), Seq::<usize>::empty()) == remove_first(
            notes,
            x,
        ));
    } else {
        assert(ids.push(x)[0] == ids[0]);
        assert(ids.push(x).drop_first() =~= ids.drop_first().push(x));
        lemma_remove_ids_snoc(remove_first(notes, ids[0]), ids.drop_first(), x);
    }
}

/// No id exceeds the largest id.
proof fn lemma_max_id_is_bound(notes: Seq<ItemV>)
    ensures
        forall|i: int| 0 <= i < notes.len() ==> notes[i].id <= max_id(notes),
    decreases notes.len(),
{
    if notes.len() > 0 {
        lemma_max_id_is_bound(notes.drop_last());
        assert forall|i: int| 0 <= i < notes.len() implies notes[i].id <= max_id(notes) by {
            if i < notes.len() - 1 {
                assert(notes.drop_last()[i] == notes[i]);
            }
        }
    }
}

/// A fresh id keeps the profile invariant: appending a note whose id is
/// the largest present plus one — as `add_note` and `transfer_note`
/// allocate it — leaves all ids pairwise distinct.
pub proof fn lemma_fresh_id_keeps_distinct(notes: Seq<ItemV>, n: ItemV)
    requires
        distinct_ids(notes),
        n.id == max_id(notes) + 1,
    ensures
        distinct_ids(notes.push(n)),
{
    lemma_max_id_is_bound(notes);
    assert forall|i: int, j: int|
        0 <= i < j < notes.push(n).len() implies notes.push(n)[i].id != notes.push(
        n,
    )[j].id by {
        assert(notes.push(n)[i] == notes[i]);
        if j < notes.len() {
            assert(notes.push(n)[j] == notes[j]);
        } else {
            assert(notes.push(n)[j] == n);
        }
    }
}

/// A filter that keeps every element changes nothing.
proof fn lemma_filter_true(s: Seq<ItemV>, f: spec_fn(ItemV) -> bool)
    requires
        forall|i: int| 0 <= i < s.len() ==> f(s[i]),
    ensures
        s.filter(f) =~= s,
    decreases s.len(),
{
    reveal_with_fuel(Seq::<ItemV>::filter, 2);
    if s.len() > 0 {
        lemma_filter_true(s.drop_last(), f);
    }
}

/// Two filters agreeing on every element of the sequence filter it alike.
proof fn lemma_filter_ext(s: Seq<ItemV>, f: spec_fn(ItemV) -> bool, g: spec_fn(ItemV) -> bool)
    requires
        forall|i: int| 0 <= i < s.len() ==> f(s[i]) == g(s[i]),
    ensures
        s.filter(f) =~= s.filter(g),
    decreases s.len(),
{
    reveal_with_fuel(Seq::<ItemV>::filter, 2);
    if s.len() > 0 {
        lemma_filter_ext(s.drop_last(), f, g);
    }
}

/// Filtering twice is filtering once by the conjunction.
proof fn lemma_filter_filter(
    s: Seq<ItemV>,
    f: spec_fn(ItemV) -> bool,
    g: spec_fn(ItemV) -> bool,
    h: spec_fn(ItemV) -> bool,
)
    requires
        forall|n: ItemV| #[trigger] h(n) == (f(n) && g(n)),
    ensures
        s.filter(f).filter(g) =~= s.filter(h),
    decreases s.len(),
{
    reveal_with_fuel(Seq::<ItemV>::filter, 2);
    if s.len() > 0 {
        lemma_filter_filter(s.drop_last(), f, g, h);
        if f(s.last()) {
            assert(s.filter(f) == s.drop_last().filter(f).push(s.last()));
            assert(s.filter(f).drop_last() =~= s.drop_last().filter(f));
        }
    }
}

/// Removing the only occurrence of an id is filtering that id out.
proof fn lemma_remove_only(s: Seq<ItemV>, p: int, x: usize, f: spec_fn(ItemV) -> bool)
    requires
        distinct_ids(s),
        0 <= p < s.len(),
        s[p].id == x,
        forall|n: ItemV| #[trigger] f(n) == (n.id != x),
    ensures
        s.remove(p) =~= s.filter(f),
    decreases s.len(),
{
    reveal_with_fuel(Seq::<ItemV>::filter, 2);
    let d = s.drop_last();
    if p == s.len() - 1 {
        assert(s.remove(p) =~= d);
        lemma_filter_true(d, f);
    } else {
        assert(distinct_ids(d));
        lemma_remove_only(d, p, x, f);
        assert(s.last().id != x);
        assert(s.filter(f) == d.filter(f).push(s.last()));
        assert(s.remove(p) =~= d.remove(p).push(s.last()));
    }
}

/// The parametric form of the deletion law below.
proof fn lemma_remove_ids_filter(notes: Seq<ItemV>, ids: Seq<usize>, f: spec_fn(ItemV) -> bool)
    requires
        distinct_ids(notes),
        forall|n: ItemV| #[trigger] f(n) == !ids.contains(n.id),
    ensures
        remove_ids(notes, ids) =~= notes.filter(f),
    decreases ids.len(),
{
    if ids.len() == 0 {
        lemma_filter_true(notes, f);
    } else {
        let x = ids[0];
        let rest = ids.drop_first();
        let first = remove_first(notes, x);
        let p = find_id(notes, x);
        let fx: spec_fn(ItemV) -> bool = |n: ItemV| n.id != x;
        let frest: spec_fn(ItemV) -> bool = |n: ItemV| !rest.contains(n.id);
        lemma_find_id(notes, x);
        if p >= 0 {
            lemma_remove_only(notes, p, x, fx);
            assert(first == notes.filter(fx));
            assert forall|i: int, j: int|
                0 <= i < j < first.len() implies first[i].id != first[j].id by {
                let oi: int = if i < p {
                    i
                } else {
                    i + 1
                };
                let oj: int = if j < p {
                    j
                } else {
                    j + 1
                };
                assert(first[i] == notes[oi]);
                assert(first[j] == notes[oj]);
            }
        } else {
            lemma_filter_true(notes, fx);
            assert(first == notes.filter(fx));
        }
        lemma_remove_ids_filter(first, rest, frest);
        assert forall|n: ItemV| #[trigger] f(n) == (fx(n) && frest(n)) by {
            let y = n.id;
            if ids.contains(y) {
                let k = choose|k: int| 0 <= k < ids.len() && ids[k] == y;
                if k > 0 {
                    assert(rest[k - 1] == ids[k]);
                }
            }
            if rest.contains(y) {
                let k = choose|k: int| 0 <= k < rest.len() && rest[k] == y;
                assert(ids[k + 1] == rest[k]);
            }
        }
        lemma_filter_filter(notes, fx, frest, f);
    }
}

/// Deleting a batch of ids from a profile whose ids are pairwise distinct
/// removes exactly the notes whose id is in the batch, each independently,
/// keeping the others in order.
pub proof fn lemma_delete_note_filter(notes: Seq<ItemV>, ids: Seq<usize>)
    requires
        distinct_ids(notes),
    ensures
        remove_ids(notes, ids) =~= notes.filter(|n: ItemV| !ids.contains(n.id)),
{
    lemma_remove_ids_filter(notes, ids, |n: ItemV| !ids.contains(n.id));
}

/// The maximum over a prefix never exceeds the maximum over the whole.
proof fn lemma_max_id_take_bound(notes: Seq<ItemV>, n: int)
    requires
        0 <= n <= notes.len(),
    ensures
        max_id(notes.take(n)) <= max_id(notes),
    decreases notes.len(),
{
    if n < notes.len() {
        lemma_max_id_take_bound(notes.drop_last(), n);
        assert(notes.drop_last().take(n) =~= notes.take(n));
    } else {
        assert(notes.take(n) =~= notes);
    }
}

} // verus!
