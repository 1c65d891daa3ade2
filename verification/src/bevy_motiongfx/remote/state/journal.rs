//! What was edited, to undo and redo it.
use crate::bevy_motiongfx::remote::batch::op::{remapped, remapped_all, EditOp};
use crate::text::{decimal, decimal_text, same_text, text4};
use std::collections::VecDeque;
use vstd::prelude::*;
use vstd::string::StringExecFns;

verus! {

/// How many journal entries (i.e. undo steps) are kept per timeline.
pub const JOURNAL_CAP: usize = 100;

/// One successful mutating request: the ops as applied (`forward`, for redo)
/// and their inverses in reverse application order (`inverse`, for undo). A
/// batch is a single entry.
#[derive(Debug)]
pub struct JournalEntry {
    pub forward: Vec<EditOp>,
    pub inverse: Vec<EditOp>,
}

/// The edits of a request, forth and back.
#[verifier::ext_equal]
pub struct EntryModel {
    pub forward: Seq<EditOp>,
    pub inverse: Seq<EditOp>,
}

impl EntryModel {
    /// The entry with what refers to the action `from` referring to `to`.
    pub open spec fn remapped(self, from: u64, to: u64) -> Self {
        EntryModel {
            forward: remapped_all(self.forward, from, to),
            inverse: remapped_all(self.inverse, from, to),
        }
    }
}

impl View for JournalEntry {
    type V = EntryModel;

    open spec fn view(&self) -> EntryModel {
        EntryModel { forward: self.forward@, inverse: self.inverse@ }
    }
}

/// The kinds of the edits, each where it occurs first.
pub open spec fn kinds_of(ops: Seq<EditOp>) -> Seq<Seq<char>>
    decreases ops.len(),
{
    if ops.len() == 0 {
        Seq::empty()
    } else {
        let kinds = kinds_of(ops.drop_last());
        let kind = ops.last().spec_kind_label();
        if kinds.contains(kind) {
            kinds
        } else {
            kinds.push(kind)
        }
    }
}

/// The words with a plus between them.
pub open spec fn joined_words(words: Seq<Seq<char>>) -> Seq<char>
    decreases words.len(),
{
    if words.len() == 0 {
        Seq::empty()
    } else if words.len() == 1 {
        words[0]
    } else {
        joined_words(words.drop_last()) + " + "@ + words.last()
    }
}

/// The edits of an entry by kind, and how many there are where a kind occurs
/// more than once.
pub open spec fn entry_summary(forward: Seq<EditOp>) -> Seq<char> {
    let kinds = kinds_of(forward);
    if kinds.len() == 0 {
        "edit"@
    } else if forward.len() > kinds.len() {
        joined_words(kinds) + " ("@ + decimal(forward.len()) + " ops)"@
    } else {
        joined_words(kinds)
    }
}

/// The texts of some strings.
pub open spec fn texts(words: Seq<&'static str>) -> Seq<Seq<char>> {
    words.map_values(|word: &'static str| word@)
}

/// Whether the word is among the others.
fn is_among(words: &Vec<&'static str>, word: &str) -> (found: bool)
    ensures
        found == texts(words@).contains(word@),
{
    let mut i: usize = 0;
    while i < words.len()
        invariant
            i <= words@.len(),
            forall|j: int| 0 <= j < i ==> (#[trigger] texts(words@)[j]) != word@,
        decreases words@.len() - i,
    {
        if same_text(words[i], word) {
            assert(texts(words@)[i as int] == word@);
            return true;
        }
        i += 1;
    }
    false
}

/// The words with a plus between them.
fn join_words(words: &Vec<&'static str>) -> (text: String)
    ensures
        text@ == joined_words(texts(words@)),
{
    let ghost all = texts(words@);
    if words.len() == 0 {
        return String::new();
    }
    let mut text = String::from_str(words[0]);
    let mut i: usize = 1;
    assert(all.take(1)[0] == all[0]);
    while i < words.len()
        invariant
            1 <= i <= words@.len(),
            all == texts(words@),
            text@ == joined_words(all.take(i as int)),
        decreases words@.len() - i,
    {
        assert(all.take(i + 1).drop_last() =~= all.take(i as int));
        text = text.concat(" + ").concat(words[i]);
        i += 1;
    }
    assert(all.take(i as int) =~= all);
    text
}

/// Makes what refers to the action `from` refer to `to`.
fn remap_ops(ops: &mut Vec<EditOp>, from: u64, to: u64)
    ensures
        final(ops)@ == remapped_all(old(ops)@, from, to),
{
    let ghost before = ops@;
    let mut i: usize = 0;
    while i < ops.len()
        invariant
            i <= ops@.len(),
            ops@.len() == before.len(),
            forall|j: int| 0 <= j < i ==> #[trigger] ops@[j] == remapped(before[j], from, to),
            forall|j: int| i <= j < before.len() ==> #[trigger] ops@[j] == before[j],
        decreases before.len() - i,
    {
        let mut op = ops[i].copy();
        op.remap_action_id(from, to);
        ops.set(i, op);
        i += 1;
    }
    assert(ops@ =~= remapped_all(before, from, to));
}

impl JournalEntry {
    /// A compact label for an undo-history panel: the entry's forward ops by
    /// kind (e.g. `"insert"`, `"move + update"`).
    pub fn summary(&self) -> (summary: String)
        ensures
            summary@ == entry_summary(self@.forward),
    {
        let mut kinds: Vec<&'static str> = Vec::new();
        let mut i: usize = 0;
        assert(texts(kinds@) =~= kinds_of(self.forward@.take(0)));
        while i < self.forward.len()
            invariant
                i <= self.forward@.len(),
                texts(kinds@) == kinds_of(self.forward@.take(i as int)),
            decreases self.forward@.len() - i,
        {
            proof {
                assert(self.forward@.take(i + 1).drop_last() =~= self.forward@.take(i as int));
            }
            let kind = self.forward[i].kind_label();
            let ghost before = texts(kinds@);
            if !is_among(&kinds, kind) {
                kinds.push(kind);
                assert(texts(kinds@) =~= before.push(kind@));
            }
            i += 1;
        }
        assert(self.forward@.take(i as int) =~= self.forward@);
        assert(texts(kinds@).len() == kinds@.len());
        if kinds.len() == 0 {
            String::from_str("edit")
        } else if self.forward.len() > kinds.len() {
            let words = join_words(&kinds);
            let count = decimal_text(self.forward.len() as u64);
            text4(words.as_str(), " (", count.as_str(), " ops)")
        } else {
            join_words(&kinds)
        }
    }

    /// Rewrite references to action id `from` to `to` in both op lists.
    pub fn remap_action_id(&mut self, from: u64, to: u64)
        ensures
            final(self)@ == old(self)@.remapped(from, to),
    {
        remap_ops(&mut self.forward, from, to);
        remap_ops(&mut self.inverse, from, to);
    }
}

/// Per-timeline undo/redo stacks of [`JournalEntry`]s.
pub struct EditJournal {
    undo: VecDeque<JournalEntry>,
    redo: Vec<JournalEntry>,
}

/// What can be undone and redone, the most recent last.
#[verifier::ext_equal]
pub struct JournalModel {
    pub undo: Seq<EntryModel>,
    pub redo: Seq<EntryModel>,
}

/// The entries with what refers to the action `from` referring to `to`.
pub open spec fn remapped_entries(entries: Seq<EntryModel>, from: u64, to: u64) -> Seq<EntryModel> {
    entries.map_values(|entry: EntryModel| entry.remapped(from, to))
}

impl JournalModel {
    /// A journal without entries.
    pub open spec fn empty() -> Self {
        JournalModel { undo: Seq::empty(), redo: Seq::empty() }
    }

    /// The journal with a new edit: the oldest one makes room where there is
    /// none, and nothing is left to redo.
    pub open spec fn recorded(self, entry: EntryModel) -> Self {
        let kept = if self.undo.len() == JOURNAL_CAP {
            self.undo.skip(1)
        } else {
            self.undo
        };
        JournalModel { undo: kept.push(entry), redo: Seq::empty() }
    }

    /// The journal with what refers to the action `from` referring to `to`.
    pub open spec fn remapped(self, from: u64, to: u64) -> Self {
        JournalModel {
            undo: remapped_entries(self.undo, from, to),
            redo: remapped_entries(self.redo, from, to),
        }
    }

    /// The entries to step through in a direction.
    pub open spec fn stack(self, redo: bool) -> Seq<EntryModel> {
        if redo {
            self.redo
        } else {
            self.undo
        }
    }

    /// The journal with other entries to step through in a direction.
    pub open spec fn with_stack(self, redo: bool, stack: Seq<EntryModel>) -> Self {
        if redo {
            JournalModel { redo: stack, ..self }
        } else {
            JournalModel { undo: stack, ..self }
        }
    }

    /// The journal without the entry that is stepped through next.
    pub open spec fn popped(self, redo: bool) -> Self {
        self.with_stack(redo, self.stack(redo).drop_last())
    }

    /// The journal with an entry that was stepped through, to step back.
    pub open spec fn stepped(self, redo: bool, entry: EntryModel) -> Self {
        self.with_stack(!redo, self.stack(!redo).push(entry))
    }

    /// How many entries there are.
    pub open spec fn size(self) -> nat {
        self.undo.len() + self.redo.len()
    }
}

/// The models of some entries.
pub open spec fn entry_models(entries: Seq<JournalEntry>) -> Seq<EntryModel> {
    entries.map_values(|entry: JournalEntry| entry@)
}

impl View for EditJournal {
    type V = JournalModel;

    closed spec fn view(&self) -> JournalModel {
        JournalModel { undo: entry_models(self.undo@), redo: entry_models(self.redo@) }
    }
}

impl EditJournal {
    /// There are no more entries than are kept.
    #[verifier::type_invariant]
    spec fn bounded(self) -> bool {
        self.undo@.len() + self.redo@.len() <= JOURNAL_CAP
    }

    /// A journal without entries.
    pub fn new() -> (journal: Self)
        ensures
            journal@ == JournalModel::empty(),
    {
        let journal = EditJournal { undo: VecDeque::new(), redo: Vec::new() };
        assert(journal@ =~= JournalModel::empty());
        journal
    }

    /// A journal never holds more entries than are kept.
    pub fn size(&self) -> (size: usize)
        ensures
            size == self@.size(),
            size <= JOURNAL_CAP,
    {
        proof {
            use_type_invariant(self);
        }
        self.undo.len() + self.redo.len()
    }

    /// The number of entries that can be undone.
    pub fn undo_len(&self) -> (len: usize)
        ensures
            len == self@.undo.len(),
    {
        self.undo.len()
    }

    /// The number of entries that can be redone.
    pub fn redo_len(&self) -> (len: usize)
        ensures
            len == self@.redo.len(),
    {
        self.redo.len()
    }

    /// An entry that can be undone, the oldest one first.
    pub fn undo_entry(&self, index: usize) -> (entry: &JournalEntry)
        requires
            index < self@.undo.len(),
        ensures
            entry@ == self@.undo[index as int],
    {
        &self.undo[index]
    }

    /// An entry that can be redone, the next one last.
    pub fn redo_entry(&self, index: usize) -> (entry: &JournalEntry)
        requires
            index < self@.redo.len(),
        ensures
            entry@ == self@.redo[index as int],
    {
        &self.redo[index]
    }

    /// Takes the two stacks out.
    fn take_stacks(&mut self) -> (stacks: (VecDeque<JournalEntry>, Vec<JournalEntry>))
        ensures
            final(self)@ == JournalModel::empty(),
            entry_models(stacks.0@) == old(self)@.undo,
            entry_models(stacks.1@) == old(self)@.redo,
            stacks.0@.len() + stacks.1@.len() <= JOURNAL_CAP,
    {
        let mut taken = EditJournal::new();
        core::mem::swap(self, &mut taken);
        proof {
            use_type_invariant(&taken);
        }
        let EditJournal { undo, redo } = taken;
        (undo, redo)
    }

    /// Record a new edit: push onto the (bounded) undo stack and clear the
    /// redo stack.
    pub fn record(&mut self, entry: JournalEntry)
        ensures
            final(self)@ == old(self)@.recorded(entry@),
    {
        let (mut undo, redo) = self.take_stacks();
        let ghost before = entry_models(undo@);
        if undo.len() == JOURNAL_CAP {
            undo.pop_front();
            assert(entry_models(undo@) =~= before.skip(1));
        }
        let ghost kept = entry_models(undo@);
        undo.push_back(entry);
        assert(entry_models(undo@) =~= kept.push(entry@));
        *self = EditJournal { undo, redo: Vec::new() };
        assert(self@ =~= old(self)@.recorded(entry@));
    }

    /// Takes the entry to step through next in a direction.
    pub fn pop(&mut self, redo: bool) -> (entry: Option<JournalEntry>)
        ensures
            entry is None <==> old(self)@.stack(redo).len() == 0,
            entry is None ==> final(self)@ == old(self)@,
            entry is Some ==> entry->0@ == old(self)@.stack(redo).last() && final(self)@ == old(
                self,
            )@.popped(redo),
            entry is Some ==> final(self)@.size() < JOURNAL_CAP,
    {
        let (mut undo_stack, mut redo_stack) = self.take_stacks();
        let ghost undo_before = entry_models(undo_stack@);
        let ghost redo_before = entry_models(redo_stack@);
        let entry = if redo {
            redo_stack.pop()
        } else {
            undo_stack.pop_back()
        };
        proof {
            if entry is Some {
                if redo {
                    assert(entry_models(redo_stack@) =~= redo_before.drop_last());
                } else {
                    assert(entry_models(undo_stack@) =~= undo_before.drop_last());
                }
            }
        }
        *self = EditJournal { undo: undo_stack, redo: redo_stack };
        entry
    }

    /// Puts an entry that was stepped through where it can be stepped back.
    pub fn push(&mut self, redo: bool, entry: JournalEntry)
        requires
            old(self)@.size() < JOURNAL_CAP,
        ensures
            final(self)@ == old(self)@.stepped(redo, entry@),
    {
        let (mut undo_stack, mut redo_stack) = self.take_stacks();
        let ghost undo_before = entry_models(undo_stack@);
        let ghost redo_before = entry_models(redo_stack@);
        if redo {
            undo_stack.push_back(entry);
            assert(entry_models(undo_stack@) =~= undo_before.push(entry@));
        } else {
            redo_stack.push(entry);
            assert(entry_models(redo_stack@) =~= redo_before.push(entry@));
        }
        *self = EditJournal { undo: undo_stack, redo: redo_stack };
        assert(self@ =~= old(self)@.stepped(redo, entry@));
    }

    /// Rewrite every reference to action id `from` to `to`, in both stacks.
    /// Undoing a remove re-creates the action under a fresh id. Remapping
    /// keeps the rest of the journal pointing at the remote action so longer
    /// undo/redo chains keep working.
    pub fn remap_action_id(&mut self, from: u64, to: u64)
        ensures
            final(self)@ == old(self)@.remapped(from, to),
    {
        let (mut undo, mut redo) = self.take_stacks();
        let ghost undo_before = entry_models(undo@);
        let ghost redo_before = entry_models(redo@);
        let count = undo.len();
        let mut new_undo: VecDeque<JournalEntry> = VecDeque::new();
        let mut i: usize = 0;
        while i < count
            invariant
                i <= count,
                count == undo_before.len(),
                undo@.len() == count - i,
                new_undo@.len() == i,
                forall|j: int| 0 <= j < count - i ==> (#[trigger] undo@[j])@ == undo_before[i + j],
                forall|j: int|
                    0 <= j < i ==> (#[trigger] new_undo@[j])@ == undo_before[j].remapped(from, to),
            decreases count - i,
        {
            let ghost rest = undo@;
            match undo.pop_front() {
                Some(entry) => {
                    let mut entry = entry;
                    assert(rest[0]@ == undo_before[i as int]);
                    entry.remap_action_id(from, to);
                    new_undo.push_back(entry);
                    assert forall|j: int| 0 <= j < count - i - 1 implies (#[trigger] undo@[j])@
                        == undo_before[i + 1 + j] by {
                        assert(undo@[j] == rest[j + 1]);
                    }
                },
                None => {
                    assert(false);
                },
            }
            i += 1;
        }
        let mut new_redo: Vec<JournalEntry> = Vec::new();
        let mut k: usize = redo.len();
        let ghost depth = k as int;
        while k > 0
            invariant
                k <= depth,
                depth == redo_before.len(),
                redo@.len() == k,
                new_redo@.len() == depth - k,
                forall|j: int| 0 <= j < k ==> (#[trigger] redo@[j])@ == redo_before[j],
                forall|j: int|
                    0 <= j < depth - k ==> (#[trigger] new_redo@[j])@ == redo_before[k + j].remapped(
                        from,
                        to,
                    ),
            decreases k,
        {
            let ghost done = new_redo@;
            match redo.pop() {
                Some(entry) => {
                    let mut entry = entry;
                    entry.remap_action_id(from, to);
                    new_redo.insert(0, entry);
                    assert forall|j: int| 0 <= j < depth - k + 1 implies (#[trigger] new_redo@[j])@
                        == redo_before[k - 1 + j].remapped(from, to) by {
                        if j > 0 {
                            assert(new_redo@[j] == done[j - 1]);
                        }
                    }
                },
                None => {
                    assert(false);
                },
            }
            k -= 1;
        }
        *self = EditJournal { undo: new_undo, redo: new_redo };
        assert(self@ =~= old(self)@.remapped(from, to));
    }
}

/// Stepping through an entry and back again leaves the journal as it was.
pub proof fn stepping_back_restores(journal: JournalModel, redo: bool)
    requires
        journal.stack(redo).len() > 0,
    ensures
        ({
            let entry = journal.stack(redo).last();
            let stepped = journal.popped(redo).stepped(redo, entry);
            &&& stepped.stack(!redo).last() == entry
            &&& stepped.popped(!redo).stepped(!redo, entry) == journal
            &&& stepped.size() == journal.size()
        }),
{
    let entry = journal.stack(redo).last();
    let stepped = journal.popped(redo).stepped(redo, entry);
    assert(journal.stack(redo).drop_last().push(entry) =~= journal.stack(redo));
    assert(stepped.stack(!redo).drop_last() =~= journal.stack(!redo));
    assert(stepped.popped(!redo).stepped(!redo, entry) =~= journal);
}

/// A new edit is the next to be undone, leaves nothing to redo, and at most
/// the oldest one behind.
pub proof fn recording_keeps_the_latest(journal: JournalModel, entry: EntryModel)
    requires
        journal.size() <= JOURNAL_CAP,
    ensures
        journal.recorded(entry).undo.last() == entry,
        journal.recorded(entry).redo.len() == 0,
        journal.recorded(entry).size() <= JOURNAL_CAP,
        forall|i: int|
            1 <= i < journal.undo.len() ==> journal.recorded(entry).undo.contains(
                #[trigger] journal.undo[i],
            ),
{
    let after = journal.recorded(entry).undo;
    assert forall|i: int| 1 <= i < journal.undo.len() implies after.contains(
        #[trigger] journal.undo[i],
    ) by {
        if journal.undo.len() == JOURNAL_CAP {
            assert(after[i - 1] == journal.undo[i]);
        } else {
            assert(after[i] == journal.undo[i]);
        }
    }
}

} // verus!
