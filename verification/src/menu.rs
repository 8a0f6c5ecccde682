//! The selection and entry-management state machine.
//!
//! The menu owns an ordered list of records plus two cyclic counters:
//! which record is selected (with one synthetic "create new" slot past
//! the last record) and which field of the selected record is selected.
//! It is driven one input at a time; anything it cannot decide itself —
//! leaving for another menu, starting a provisioning run — is handed
//! back to the caller as a `MenuAction`.

use vstd::prelude::*;

use crate::counter::Counter;
use crate::counter::step_down;
use crate::counter::step_up;
use crate::entry::Entry;
use crate::names::dedup_name;
use crate::names::lemma_dedup_nonempty;
use crate::names::spec_candidate;
use crate::names::spec_checked_name;
use crate::names::view_of_names;
use crate::strutil::str_eq;
use crate::toml_list::StoreError;
use crate::toml_list::TomlList;

verus! {

/// Which column of the menu has the focus.
#[derive(Debug, PartialEq, Eq, Structural, Clone, Copy)]
pub enum Focus {
    List,
    Info,
}

/// How the menu currently interprets input.
#[derive(Debug, PartialEq, Eq, Structural, Clone, Copy)]
pub enum InputMode {
    Normal,
    Editing,
    Remove,
}

/// One already-decoded input for the menu.
#[derive(Debug, PartialEq, Eq, Structural, Clone, Copy)]
pub enum MenuInput {
    Quit,
    ToggleFocus,
    Down,
    Up,
    Right,
    Left,
    Enter,
    Delete,
    Edit,
    Confirm,
    Decline,
    Escape,
    Other,
}

/// What the caller should do after an input was handled.
#[derive(Debug, PartialEq, Eq, Structural, Clone, Copy)]
pub enum MenuAction {
    /// Nothing beyond what the menu already did itself.
    Stay,
    /// Leave the application.
    Quit,
    /// Activate the selected record (hand-off to the owning context).
    Activate,
    /// Go back to the previous context.
    Back,
    /// The list changed; persist it.
    Persist,
}

/// The names of the records, in list order.
pub open spec fn spec_entry_names<T: Entry>(entries: Seq<T>) -> Seq<Seq<char>> {
    entries.map_values(|e: T| e.spec_fields()[0])
}

/// The record names without those reading `excluded`, in list order.
pub open spec fn spec_names_without<T: Entry>(entries: Seq<T>, excluded: Seq<char>) -> Seq<
    Seq<char>,
>
    decreases entries.len(),
{
    if entries.len() == 0 {
        Seq::<Seq<char>>::empty()
    } else {
        let rest = spec_names_without(entries.drop_last(), excluded);
        let nm = entries.last().spec_fields()[0];
        if nm == excluded {
            rest
        } else {
            rest.push(nm)
        }
    }
}

proof fn lemma_names_without_push<T: Entry>(prefix: Seq<T>, e: T, excluded: Seq<char>)
    ensures
        spec_names_without(prefix.push(e), excluded) == if e.spec_fields()[0] == excluded {
            spec_names_without(prefix, excluded)
        } else {
            spec_names_without(prefix, excluded).push(e.spec_fields()[0])
        },
{
    assert((prefix.push(e)).drop_last() =~= prefix);
    assert((prefix.push(e)).last() == e);
    assert((prefix.push(e)).len() == prefix.len() + 1);
}

#[derive(Debug)]
pub struct EntryMenu<T> {
    pub list_counter: Counter,
    pub info_counter: Counter,
    pub entries: TomlList<T>,
    pub focus: Focus,
    pub input_mode: InputMode,
}

impl<T: Entry> EntryMenu<T> {
    /// The list counter ranges over the records plus the synthetic
    /// "create new" slot; the info counter ranges over the fields; and
    /// the info column, the removal dialog and the editor all address
    /// a real record, never the synthetic slot.
    pub open spec fn well_formed(&self) -> bool {
        &&& self.list_counter.well_formed()
        &&& self.info_counter.well_formed()
        &&& self.list_counter.spec_length() as nat == self.entries.entry@.len() + 1
        &&& self.info_counter.spec_length() as nat == T::spec_field_count()
        &&& (self.focus == Focus::Info ==> !self.spec_is_new())
        &&& (self.input_mode != InputMode::Normal ==> !self.spec_is_new())
    }

    /// The selected list position.
    pub open spec fn spec_list_index(&self) -> nat {
        self.list_counter.spec_value() as nat
    }

    /// The selected field position.
    pub open spec fn spec_info_index(&self) -> nat {
        self.info_counter.spec_value() as nat
    }

    /// The synthetic "create new" slot is selected.
    pub open spec fn spec_is_new(&self) -> bool {
        self.spec_list_index() == self.entries.entry@.len()
    }

    /// The comparison set of the name-collision policy: every record
    /// name, except — when a real record is selected — the selected
    /// record's own name.
    pub open spec fn spec_other_names(&self) -> Seq<Seq<char>> {
        if self.spec_is_new() {
            spec_entry_names(self.entries.entry@)
        } else {
            spec_names_without(
                self.entries.entry@,
                self.entries.entry@[self.spec_list_index() as int].spec_fields()[0],
            )
        }
    }

    pub fn new() -> (r: EntryMenu<T>)
        ensures
            r.well_formed(),
            r.entries.entry@.len() == 0,
            r.spec_list_index() == 0,
            r.spec_info_index() == 0,
            r.focus == Focus::List,
            r.input_mode == InputMode::Normal,
    {
        proof {
            T::lemma_field_count_bounds();
        }
        let fc = T::field_count();
        EntryMenu {
            list_counter: Counter::new(1),
            info_counter: Counter::new(fc as u32),
            entries: TomlList::new(),
            focus: Focus::List,
            input_mode: InputMode::Normal,
        }
    }

    /// The synthetic "create new" slot is selected.
    pub fn is_new_entry(&self) -> (r: bool)
        requires
            self.well_formed(),
        ensures
            r == self.spec_is_new(),
    {
        let counter = self.list_counter.get_value();
        let length = self.entries.len();
        counter as usize == length
    }

    /// The selected record, or `IndexOutOfRange` when the synthetic
    /// slot is selected.
    pub fn get_entry(&self) -> (r: Result<&T, StoreError>)
        requires
            self.well_formed(),
        ensures
            r is Ok <==> !self.spec_is_new(),
            r matches Ok(e) ==> *e == self.entries.entry@[self.spec_list_index() as int],
            r is Err ==> r == Err::<&T, StoreError>(StoreError::IndexOutOfRange),
    {
        let index = self.list_counter.get_value();
        self.entries.get(index as usize)
    }

    /// The record names, with the synthetic "create new" slot last.
    pub fn get_entry_names(&self) -> (r: Vec<String>)
        requires
            self.well_formed(),
        ensures
            r@.len() == self.entries.entry@.len() + 1,
            forall|k: int|
                0 <= k < self.entries.entry@.len() ==> #[trigger] r@[k]@ == spec_entry_names(
                    self.entries.entry@,
                )[k],
            r@[self.entries.entry@.len() as int]@ == "Create New"@,
    {
        let mut names: Vec<String> = Vec::new();
        let n = self.entries.len();
        let mut k: usize = 0;
        while k < n
            invariant
                self.well_formed(),
                n == self.entries.entry@.len(),
                k <= n,
                names@.len() == k,
                forall|j: int|
                    0 <= j < k ==> #[trigger] names@[j]@ == spec_entry_names(
                        self.entries.entry@,
                    )[j],
            decreases n - k,
        {
            let e = match self.entries.get(k) {
                Ok(e) => e,
                Err(_) => {
                    proof {
                        assert(false);
                    }
                    return names;
                },
            };
            names.push(e.get_entry_name());
            k = k + 1;
        }
        names.push("Create New".to_owned());
        names
    }

    /// The selected field's current value, used to seed the editor.
    pub fn get_input_buffer(&self) -> (r: String)
        requires
            self.well_formed(),
            !self.spec_is_new(),
        ensures
            r@ == self.entries.entry@[self.spec_list_index() as int].spec_fields()[self.spec_info_index() as int],
    {
        let index = self.info_counter.get_value();
        let entry = match self.get_entry() {
            Ok(e) => e,
            Err(_) => {
                proof {
                    assert(false);
                }
                return String::new();
            },
        };
        proof {
            entry.lemma_fields_len();
        }
        entry.get_value_from_index(index as usize)
    }

    /// Run the name-collision policy on `name` against the records'
    /// names, leaving out the selected record's own name: an empty
    /// proposal is replaced by the default label, and `(i)` is appended
    /// while the candidate collides.
    pub fn check_entry_name(&self, name: &str) -> (r: String)
        requires
            self.well_formed(),
        ensures
            r@ == spec_checked_name(self.spec_other_names(), name@),
            !self.spec_other_names().contains(r@),
            r@.len() > 0,
    {
        let base: &str = if name.unicode_len() == 0 {
            "New Entry"
        } else {
            name
        };
        proof {
            reveal_strlit("New Entry");
            assert(base@ == spec_candidate(name@));
            lemma_dedup_nonempty(self.spec_other_names(), base@);
        }
        let is_new = self.is_new_entry();
        let n = self.entries.len();
        let mut names: Vec<String> = Vec::new();
        let mut k: usize = 0;
        if is_new {
            while k < n
                invariant
                    self.well_formed(),
                    self.spec_is_new(),
                    n == self.entries.entry@.len(),
                    k <= n,
                    names@.len() == k,
                    view_of_names(names@) =~= spec_entry_names(
                        self.entries.entry@.subrange(0, k as int),
                    ),
                decreases n - k,
            {
                let e = match self.entries.get(k) {
                    Ok(e) => e,
                    Err(_) => {
                        proof {
                            assert(false);
                        }
                        return String::new();
                    },
                };
                let ghost names0 = names@;
                let nm = e.get_entry_name();
                names.push(nm);
                proof {
                    assert(names@ == names0.push(nm));
                    assert(self.entries.entry@.subrange(0, k + 1 as int) =~= self.entries.entry@
                        .subrange(0, k as int).push(self.entries.entry@[k as int]));
                    assert forall|j: int|
                        0 <= j < names@.len() implies #[trigger] view_of_names(names@)[j]
                        == spec_entry_names(self.entries.entry@.subrange(0, k + 1 as int))[j] by {
                        if j < k {
                            assert(view_of_names(names0)[j] == spec_entry_names(
                                self.entries.entry@.subrange(0, k as int),
                            )[j]);
                            assert(names@[j] == names0[j]);
                        } else {
                            assert(names@[j] == nm);
                        }
                    }
                    assert(view_of_names(names@) =~= spec_entry_names(
                        self.entries.entry@.subrange(0, k + 1 as int),
                    ));
                }
                k = k + 1;
            }
            proof {
                assert(self.entries.entry@.subrange(0, n as int) =~= self.entries.entry@);
                assert(view_of_names(names@) =~= self.spec_other_names());
            }
            let r = dedup_name(&names, base);
            r
        } else {
            let current = match self.get_entry() {
                Ok(e) => e.get_entry_name(),
                Err(_) => {
                    proof {
                        assert(false);
                    }
                    return String::new();
                },
            };
            let ghost excluded = self.entries.entry@[self.spec_list_index() as int].spec_fields()[0];
            while k < n
                invariant
                    self.well_formed(),
                    !self.spec_is_new(),
                    n == self.entries.entry@.len(),
                    k <= n,
                    names@.len() <= k,
                    current@ == excluded,
                    excluded == self.entries.entry@[self.spec_list_index() as int].spec_fields()[0],
                    view_of_names(names@) =~= spec_names_without(
                        self.entries.entry@.subrange(0, k as int),
                        excluded,
                    ),
                decreases n - k,
            {
                let e = match self.entries.get(k) {
                    Ok(e) => e,
                    Err(_) => {
                        proof {
                            assert(false);
                        }
                        return String::new();
                    },
                };
                let nm = e.get_entry_name();
                let ghost names0 = names@;
                let ghost fname = self.entries.entry@[k as int].spec_fields()[0];
                proof {
                    assert(self.entries.entry@.subrange(0, k + 1 as int) =~= self.entries.entry@
                        .subrange(0, k as int).push(self.entries.entry@[k as int]));
                    lemma_names_without_push(
                        self.entries.entry@.subrange(0, k as int),
                        self.entries.entry@[k as int],
                        excluded,
                    );
                }
                if !str_eq(nm.as_str(), current.as_str()) {
                    names.push(nm);
                    proof {
                        assert(nm@ == fname && fname != excluded);
                        assert(names@ == names0.push(nm));
                        assert(spec_names_without(
                            self.entries.entry@.subrange(0, k + 1 as int),
                            excluded,
                        ) == spec_names_without(
                            self.entries.entry@.subrange(0, k as int),
                            excluded,
                        ).push(fname));
                        assert forall|j: int|
                            0 <= j < names@.len() implies #[trigger] view_of_names(names@)[j]
                            == spec_names_without(
                            self.entries.entry@.subrange(0, k + 1 as int),
                            excluded,
                        )[j] by {
                            if j < names0.len() {
                                assert(view_of_names(names0)[j] == spec_names_without(
                                    self.entries.entry@.subrange(0, k as int),
                                    excluded,
                                )[j]);
                                assert(names@[j] == names0[j]);
                            } else {
                                assert(names@[j] == nm);
                            }
                        }
                        assert(view_of_names(names@) =~= spec_names_without(
                            self.entries.entry@.subrange(0, k + 1 as int),
                            excluded,
                        ));
                    }
                } else {
                    proof {
                        assert(nm@ == fname && fname == excluded);
                        assert(spec_names_without(
                            self.entries.entry@.subrange(0, k + 1 as int),
                            excluded,
                        ) == spec_names_without(
                            self.entries.entry@.subrange(0, k as int),
                            excluded,
                        ));
                    }
                }
                k = k + 1;
            }
            proof {
                assert(self.entries.entry@.subrange(0, n as int) =~= self.entries.entry@);
                assert(view_of_names(names@) =~= self.spec_other_names());
            }
            let r = dedup_name(&names, base);
            r
        }
    }

    /// Append a record and widen the list bound so the synthetic slot
    /// stays addressable.
    pub fn add_entry(&mut self, entry: T)
        requires
            old(self).well_formed(),
            old(self).entries.entry@.len() + 2 <= u32::MAX,
        ensures
            final(self).well_formed(),
            final(self).entries.entry@ == old(self).entries.entry@.push(entry),
            final(self).list_counter.spec_value() == old(self).list_counter.spec_value(),
            final(self).info_counter == old(self).info_counter,
            final(self).focus == old(self).focus,
            final(self).input_mode == old(self).input_mode,
    {
        self.entries.push(entry);
        let list_length = self.entries.len() as u32;
        self.list_counter.update_length(list_length + 1);
    }

    /// Create a record with the default fields and a deduplicated
    /// default name, and append it.
    pub fn add_new_entry(&mut self)
        requires
            old(self).well_formed(),
            old(self).entries.entry@.len() + 2 <= u32::MAX,
        ensures
            final(self).well_formed(),
            final(self).entries.entry@.len() == old(self).entries.entry@.len() + 1,
            forall|k: int|
                0 <= k < old(self).entries.entry@.len() ==> final(self).entries.entry@[k] == old(self).entries.entry@[k],
            final(self).entries.entry@.last().spec_fields() == T::spec_default_fields().update(
                0,
                spec_checked_name(old(self).spec_other_names(), "New Entry"@),
            ),
            final(self).list_counter.spec_value() == old(self).list_counter.spec_value(),
            final(self).info_counter == old(self).info_counter,
            final(self).focus == old(self).focus,
            final(self).input_mode == old(self).input_mode,
    {
        let name = self.check_entry_name("New Entry");
        let mut new_entry = T::default_entry();
        proof {
            new_entry.lemma_fields_len();
            T::lemma_default_fields_len();
        }
        new_entry.set_entry_name(name.as_str());
        self.add_entry(new_entry);
        proof {
            assert(final(self).entries.entry@.last().spec_fields()
                == T::spec_default_fields().update(
                0,
                spec_checked_name(old(self).spec_other_names(), "New Entry"@),
            ));
        }
    }

    /// Delete the selected record. The selection keeps its position, so
    /// it addresses the removed record's successor, or the synthetic
    /// slot when it was the last record; it is never out of range.
    pub fn remove_selected(&mut self)
        requires
            old(self).well_formed(),
            !old(self).spec_is_new(),
        ensures
            final(self).well_formed(),
            final(self).entries.entry@ == old(self).entries.entry@.remove(
                old(self).spec_list_index() as int,
            ),
            final(self).spec_list_index() == old(self).spec_list_index(),
            final(self).spec_list_index() <= final(self).entries.entry@.len(),
            final(self).info_counter == old(self).info_counter,
            final(self).focus == Focus::List,
            final(self).input_mode == InputMode::Normal,
    {
        let index = self.list_counter.get_value() as usize;
        self.entries.remove(index);
        let list_length = self.entries.len() as u32;
        self.list_counter.update_length(list_length + 1);
        self.focus = Focus::List;
        self.input_mode = InputMode::Normal;
    }

    /// Write `value` into the selected field of the selected record;
    /// a value bound for the name field first passes the
    /// name-collision policy.
    pub fn set_input_buffer(&mut self, value: &str)
        requires
            old(self).well_formed(),
            !old(self).spec_is_new(),
        ensures
            final(self).well_formed(),
            final(self).entries.entry@.len() == old(self).entries.entry@.len(),
            forall|k: int|
                0 <= k < old(self).entries.entry@.len() && k != old(self).spec_list_index()
                    ==> final(self).entries.entry@[k] == old(self).entries.entry@[k],
            final(self).entries.entry@[old(self).spec_list_index() as int].spec_fields() == old(self).entries.entry@[old(self).spec_list_index() as int].spec_fields().update(
                old(self).spec_info_index() as int,
                if old(self).spec_info_index() == 0 {
                    spec_checked_name(old(self).spec_other_names(), value@)
                } else {
                    value@
                },
            ),
            final(self).list_counter == old(self).list_counter,
            final(self).info_counter == old(self).info_counter,
            final(self).focus == old(self).focus,
            final(self).input_mode == old(self).input_mode,
    {
        let index = self.info_counter.get_value() as usize;
        let new_value: String = if index == 0 {
            self.check_entry_name(value)
        } else {
            value.to_owned()
        };
        let lv = self.list_counter.get_value() as usize;
        let mut updated: T = match self.entries.get(lv) {
            Ok(e) => e.clone_entry(),
            Err(_) => {
                proof {
                    assert(false);
                }
                return ;
            },
        };
        proof {
            updated.lemma_fields_len();
        }
        updated.set_value_from_index(index, new_value.as_str());
        let set_result = self.entries.set(lv, updated);
        proof {
            assert(set_result is Ok);
        }
    }

    /// Move the selection up in whichever column has the focus.
    pub fn on_up(&mut self)
        requires
            old(self).well_formed(),
            old(self).input_mode == InputMode::Normal,
        ensures
            final(self).well_formed(),
            final(self).entries == old(self).entries,
            final(self).focus == old(self).focus,
            final(self).input_mode == old(self).input_mode,
            old(self).focus == Focus::List ==> (final(self).spec_list_index() == step_down(
                old(self).spec_list_index(),
                old(self).entries.entry@.len() + 1,
            ) && final(self).info_counter == old(self).info_counter),
            old(self).focus == Focus::Info ==> (final(self).spec_info_index() == step_down(
                old(self).spec_info_index(),
                T::spec_field_count(),
            ) && final(self).list_counter == old(self).list_counter),
    {
        match self.focus {
            Focus::List => self.list_counter.decrement(),
            Focus::Info => self.info_counter.decrement(),
        }
    }

    /// Move the selection down in whichever column has the focus.
    pub fn on_down(&mut self)
        requires
            old(self).well_formed(),
            old(self).input_mode == InputMode::Normal,
        ensures
            final(self).well_formed(),
            final(self).entries == old(self).entries,
            final(self).focus == old(self).focus,
            final(self).input_mode == old(self).input_mode,
            old(self).focus == Focus::List ==> (final(self).spec_list_index() == step_up(
                old(self).spec_list_index(),
                old(self).entries.entry@.len() + 1,
            ) && final(self).info_counter == old(self).info_counter),
            old(self).focus == Focus::Info ==> (final(self).spec_info_index() == step_up(
                old(self).spec_info_index(),
                T::spec_field_count(),
            ) && final(self).list_counter == old(self).list_counter),
    {
        match self.focus {
            Focus::List => self.list_counter.increment(),
            Focus::Info => self.info_counter.increment(),
        }
    }

    /// Swap the focus between the two columns; a no-op while the
    /// synthetic slot is selected.
    pub fn toggle_focus(&mut self)
        requires
            old(self).well_formed(),
        ensures
            final(self).well_formed(),
            final(self).entries == old(self).entries,
            final(self).list_counter == old(self).list_counter,
            final(self).info_counter == old(self).info_counter,
            final(self).input_mode == old(self).input_mode,
            old(self).spec_is_new() ==> final(self).focus == old(self).focus,
            !old(self).spec_is_new() ==> final(self).focus == (if old(self).focus == Focus::List {
                Focus::Info
            } else {
                Focus::List
            }),
    {
        if self.is_new_entry() {
            return ;
        }
        match self.focus {
            Focus::List => {
                self.focus = Focus::Info;
            },
            Focus::Info => {
                self.focus = Focus::List;
            },
        }
    }

    /// Ask for confirmation before a removal; a no-op while the
    /// synthetic slot is selected.
    pub fn open_remove_mode(&mut self)
        requires
            old(self).well_formed(),
        ensures
            final(self).well_formed(),
            final(self).entries == old(self).entries,
            final(self).list_counter == old(self).list_counter,
            final(self).info_counter == old(self).info_counter,
            final(self).focus == old(self).focus,
            old(self).spec_is_new() ==> final(self).input_mode == old(self).input_mode,
            !old(self).spec_is_new() ==> final(self).input_mode == InputMode::Remove,
    {
        if self.is_new_entry() {
            return ;
        }
        self.input_mode = InputMode::Remove;
    }

    /// Start editing the selected field; a no-op while the list column
    /// has the focus.
    pub fn open_input_mode(&mut self)
        requires
            old(self).well_formed(),
        ensures
            final(self).well_formed(),
            final(self).entries == old(self).entries,
            final(self).list_counter == old(self).list_counter,
            final(self).info_counter == old(self).info_counter,
            final(self).focus == old(self).focus,
            old(self).focus == Focus::List ==> final(self).input_mode == old(self).input_mode,
            old(self).focus != Focus::List ==> final(self).input_mode == InputMode::Editing,
    {
        if self.focus == Focus::List {
            return ;
        }
        self.input_mode = InputMode::Editing;
    }

    /// Commit the edited text into the selected field and leave the
    /// editor.
    pub fn close_input_mode(&mut self, edit_text: &str)
        requires
            old(self).well_formed(),
            !old(self).spec_is_new(),
        ensures
            final(self).well_formed(),
            final(self).input_mode == InputMode::Normal,
            final(self).focus == old(self).focus,
            final(self).list_counter == old(self).list_counter,
            final(self).info_counter == old(self).info_counter,
            final(self).entries.entry@.len() == old(self).entries.entry@.len(),
            forall|k: int|
                0 <= k < old(self).entries.entry@.len() && k != old(self).spec_list_index()
                    ==> final(self).entries.entry@[k] == old(self).entries.entry@[k],
            final(self).entries.entry@[old(self).spec_list_index() as int].spec_fields() == old(self).entries.entry@[old(self).spec_list_index() as int].spec_fields().update(
                old(self).spec_info_index() as int,
                if old(self).spec_info_index() == 0 {
                    spec_checked_name(old(self).spec_other_names(), edit_text@)
                } else {
                    edit_text@
                },
            ),
    {
        self.set_input_buffer(edit_text);
        self.input_mode = InputMode::Normal;
    }

    /// Handle one input. `edit_text` is the editor's current content;
    /// it matters only when the input commits an edit.
    pub fn input(&mut self, ev: MenuInput, edit_text: &str) -> (action: MenuAction)
        requires
            old(self).well_formed(),
            old(self).entries.entry@.len() + 2 <= u32::MAX,
        ensures
            final(self).well_formed(),
            old(self).input_mode == InputMode::Normal ==> match ev {
                MenuInput::Quit => action == MenuAction::Quit && *final(self) == *old(self),
                MenuInput::Down => action == MenuAction::Stay && final(self).entries == old(self).entries && final(self).input_mode == InputMode::Normal && final(self).focus
                    == old(self).focus && (old(self).focus == Focus::List ==> (final(self).spec_list_index() == step_up(
                    old(self).spec_list_index(),
                    old(self).entries.entry@.len() + 1,
                ) && final(self).info_counter == old(self).info_counter)) && (old(self).focus
                    == Focus::Info ==> (final(self).spec_info_index() == step_up(
                    old(self).spec_info_index(),
                    T::spec_field_count(),
                ) && final(self).list_counter == old(self).list_counter)),
                MenuInput::Up => action == MenuAction::Stay && final(self).entries == old(self).entries && final(self).input_mode == InputMode::Normal && final(self).focus
                    == old(self).focus && (old(self).focus == Focus::List ==> (final(self).spec_list_index() == step_down(
                    old(self).spec_list_index(),
                    old(self).entries.entry@.len() + 1,
                ) && final(self).info_counter == old(self).info_counter)) && (old(self).focus
                    == Focus::Info ==> (final(self).spec_info_index() == step_down(
                    old(self).spec_info_index(),
                    T::spec_field_count(),
                ) && final(self).list_counter == old(self).list_counter)),
                MenuInput::ToggleFocus => action == MenuAction::Stay && final(self).entries
                    == old(self).entries && final(self).input_mode == InputMode::Normal && final(self).list_counter == old(self).list_counter && final(self).info_counter == old(self).info_counter && (old(self).spec_is_new() ==> final(self).focus == old(self).focus) && (!old(self).spec_is_new() ==> final(self).focus == (if old(self).focus == Focus::List {
                    Focus::Info
                } else {
                    Focus::List
                })),
                MenuInput::Right => *final(self) == *old(self) && action == (if !old(self).spec_is_new() && old(self).focus == Focus::List {
                    MenuAction::Activate
                } else {
                    MenuAction::Stay
                }),
                MenuInput::Left => *final(self) == *old(self) && action == (if old(self).focus
                    != Focus::Info {
                    MenuAction::Back
                } else {
                    MenuAction::Stay
                }),
                MenuInput::Delete => action == MenuAction::Stay && final(self).entries == old(self).entries && final(self).list_counter == old(self).list_counter && final(self).info_counter == old(self).info_counter && final(self).focus == old(self).focus
                    && (!old(self).spec_is_new() ==> final(self).input_mode == InputMode::Remove)
                    && (old(self).spec_is_new() ==> final(self).input_mode == old(self).input_mode),
                MenuInput::Edit => action == MenuAction::Stay && final(self).entries == old(self).entries && final(self).list_counter == old(self).list_counter && final(self).info_counter == old(self).info_counter && final(self).focus == old(self).focus
                    && (old(self).focus != Focus::List ==> final(self).input_mode
                    == InputMode::Editing) && (old(self).focus == Focus::List ==> final(self).input_mode == old(self).input_mode),
                MenuInput::Enter => (if old(self).spec_is_new() {
                    action == MenuAction::Persist && final(self).entries.entry@.len() == old(self).entries.entry@.len() + 1 && final(self).focus == Focus::Info && final(self).input_mode == InputMode::Editing && final(self).entries.entry@.last().spec_fields() == T::spec_default_fields().update(
                        0,
                        spec_checked_name(old(self).spec_other_names(), "New Entry"@),
                    ) && final(self).spec_list_index() == old(self).spec_list_index() && final(self).spec_info_index() == 0 && (forall|k: int|
                        0 <= k < old(self).entries.entry@.len() ==> final(self).entries.entry@[k]
                            == old(self).entries.entry@[k])
                } else if old(self).focus == Focus::List {
                    action == MenuAction::Activate && *final(self) == *old(self)
                } else {
                    action == MenuAction::Stay && final(self).entries == old(self).entries
                        && final(self).input_mode == InputMode::Editing && final(self).focus
                        == old(self).focus && final(self).list_counter == old(self).list_counter
                        && final(self).info_counter == old(self).info_counter
                }),
                _ => action == MenuAction::Stay && *final(self) == *old(self),
            },
            old(self).input_mode == InputMode::Remove ==> match ev {
                MenuInput::Enter | MenuInput::Confirm => action == MenuAction::Persist && final(self).entries.entry@ == old(self).entries.entry@.remove(
                    old(self).spec_list_index() as int,
                ) && final(self).input_mode == InputMode::Normal && final(self).focus
                    == Focus::List && final(self).spec_list_index() == old(self).spec_list_index()
                    && final(self).info_counter == old(self).info_counter,
                MenuInput::Escape | MenuInput::Decline => action == MenuAction::Stay && final(self).entries == old(self).entries && final(self).input_mode == InputMode::Normal
                    && final(self).list_counter == old(self).list_counter && final(self).info_counter == old(self).info_counter && final(self).focus == old(self).focus,
                _ => action == MenuAction::Stay && *final(self) == *old(self),
            },
            old(self).input_mode == InputMode::Editing ==> match ev {
                MenuInput::Enter => action == MenuAction::Persist && final(self).input_mode
                    == InputMode::Normal && final(self).entries.entry@.len() == old(self).entries.entry@.len() && final(self).entries.entry@[old(self).spec_list_index() as int].spec_fields() == old(self).entries.entry@[old(self).spec_list_index() as int].spec_fields().update(
                    old(self).spec_info_index() as int,
                    if old(self).spec_info_index() == 0 {
                        spec_checked_name(old(self).spec_other_names(), edit_text@)
                    } else {
                        edit_text@
                    },
                ),
                MenuInput::Escape => action == MenuAction::Stay && final(self).entries == old(self).entries && final(self).input_mode == InputMode::Normal,
                _ => action == MenuAction::Stay && *final(self) == *old(self),
            },
    {
        match self.input_mode {
            InputMode::Normal => self.input_normal_mode(ev),
            InputMode::Remove => self.input_remove_mode(ev),
            InputMode::Editing => self.input_editing_mode(ev, edit_text),
        }
    }

    fn input_normal_mode(&mut self, ev: MenuInput) -> (action: MenuAction)
        requires
            old(self).well_formed(),
            old(self).input_mode == InputMode::Normal,
            old(self).entries.entry@.len() + 2 <= u32::MAX,
        ensures
            final(self).well_formed(),
            match ev {
                MenuInput::Quit => action == MenuAction::Quit && *final(self) == *old(self),
                MenuInput::Down => action == MenuAction::Stay && final(self).entries == old(self).entries && final(self).input_mode == InputMode::Normal && final(self).focus
                    == old(self).focus && (old(self).focus == Focus::List ==> (final(self).spec_list_index() == step_up(
                    old(self).spec_list_index(),
                    old(self).entries.entry@.len() + 1,
                ) && final(self).info_counter == old(self).info_counter)) && (old(self).focus
                    == Focus::Info ==> (final(self).spec_info_index() == step_up(
                    old(self).spec_info_index(),
                    T::spec_field_count(),
                ) && final(self).list_counter == old(self).list_counter)),
                MenuInput::Up => action == MenuAction::Stay && final(self).entries == old(self).entries && final(self).input_mode == InputMode::Normal && final(self).focus
                    == old(self).focus && (old(self).focus == Focus::List ==> (final(self).spec_list_index() == step_down(
                    old(self).spec_list_index(),
                    old(self).entries.entry@.len() + 1,
                ) && final(self).info_counter == old(self).info_counter)) && (old(self).focus
                    == Focus::Info ==> (final(self).spec_info_index() == step_down(
                    old(self).spec_info_index(),
                    T::spec_field_count(),
                ) && final(self).list_counter == old(self).list_counter)),
                MenuInput::ToggleFocus => action == MenuAction::Stay && final(self).entries
                    == old(self).entries && final(self).input_mode == InputMode::Normal && final(self).list_counter == old(self).list_counter && final(self).info_counter == old(self).info_counter && (old(self).spec_is_new() ==> final(self).focus == old(self).focus) && (!old(self).spec_is_new() ==> final(self).focus == (if old(self).focus == Focus::List {
                    Focus::Info
                } else {
                    Focus::List
                })),
                MenuInput::Right => *final(self) == *old(self) && action == (if !old(self).spec_is_new() && old(self).focus == Focus::List {
                    MenuAction::Activate
                } else {
                    MenuAction::Stay
                }),
                MenuInput::Left => *final(self) == *old(self) && action == (if old(self).focus
                    != Focus::Info {
                    MenuAction::Back
                } else {
                    MenuAction::Stay
                }),
                MenuInput::Delete => action == MenuAction::Stay && final(self).entries == old(self).entries && final(self).list_counter == old(self).list_counter && final(self).info_counter == old(self).info_counter && final(self).focus == old(self).focus
                    && (!old(self).spec_is_new() ==> final(self).input_mode == InputMode::Remove)
                    && (old(self).spec_is_new() ==> final(self).input_mode == old(self).input_mode),
                MenuInput::Edit => action == MenuAction::Stay && final(self).entries == old(self).entries && final(self).list_counter == old(self).list_counter && final(self).info_counter == old(self).info_counter && final(self).focus == old(self).focus
                    && (old(self).focus != Focus::List ==> final(self).input_mode
                    == InputMode::Editing) && (old(self).focus == Focus::List ==> final(self).input_mode == old(self).input_mode),
                MenuInput::Enter => (if old(self).spec_is_new() {
                    action == MenuAction::Persist && final(self).entries.entry@.len() == old(self).entries.entry@.len() + 1 && final(self).focus == Focus::Info && final(self).input_mode == InputMode::Editing && final(self).entries.entry@.last().spec_fields() == T::spec_default_fields().update(
                        0,
                        spec_checked_name(old(self).spec_other_names(), "New Entry"@),
                    ) && final(self).spec_list_index() == old(self).spec_list_index() && final(self).spec_info_index() == 0 && (forall|k: int|
                        0 <= k < old(self).entries.entry@.len() ==> final(self).entries.entry@[k]
                            == old(self).entries.entry@[k])
                } else if old(self).focus == Focus::List {
                    action == MenuAction::Activate && *final(self) == *old(self)
                } else {
                    action == MenuAction::Stay && final(self).entries == old(self).entries
                        && final(self).input_mode == InputMode::Editing && final(self).focus
                        == old(self).focus && final(self).list_counter == old(self).list_counter
                        && final(self).info_counter == old(self).info_counter
                }),
                _ => action == MenuAction::Stay && *final(self) == *old(self),
            },
    {
        match ev {
            MenuInput::Quit => MenuAction::Quit,
            MenuInput::ToggleFocus => {
                self.toggle_focus();
                MenuAction::Stay
            },
            MenuInput::Down => {
                self.on_down();
                MenuAction::Stay
            },
            MenuInput::Up => {
                self.on_up();
                MenuAction::Stay
            },
            MenuInput::Right => {
                if !self.is_new_entry() && self.focus == Focus::List {
                    MenuAction::Activate
                } else {
                    MenuAction::Stay
                }
            },
            MenuInput::Left => {
                if self.focus != Focus::Info {
                    MenuAction::Back
                } else {
                    MenuAction::Stay
                }
            },
            MenuInput::Enter => {
                if self.is_new_entry() {
                    self.add_new_entry();
                    self.focus = Focus::Info;
                    self.info_counter.reset();
                    self.input_mode = InputMode::Editing;
                    MenuAction::Persist
                } else if self.focus == Focus::List {
                    MenuAction::Activate
                } else {
                    self.input_mode = InputMode::Editing;
                    MenuAction::Stay
                }
            },
            MenuInput::Delete => {
                self.open_remove_mode();
                MenuAction::Stay
            },
            MenuInput::Edit => {
                self.open_input_mode();
                MenuAction::Stay
            },
            _ => MenuAction::Stay,
        }
    }

    fn input_remove_mode(&mut self, ev: MenuInput) -> (action: MenuAction)
        requires
            old(self).well_formed(),
            old(self).input_mode == InputMode::Remove,
        ensures
            final(self).well_formed(),
            match ev {
                MenuInput::Enter | MenuInput::Confirm => action == MenuAction::Persist && final(self).entries.entry@ == old(self).entries.entry@.remove(
                    old(self).spec_list_index() as int,
                ) && final(self).input_mode == InputMode::Normal && final(self).focus
                    == Focus::List && final(self).spec_list_index() == old(self).spec_list_index()
                    && final(self).info_counter == old(self).info_counter,
                MenuInput::Escape | MenuInput::Decline => action == MenuAction::Stay && final(self).entries == old(self).entries && final(self).input_mode == InputMode::Normal
                    && final(self).list_counter == old(self).list_counter && final(self).info_counter == old(self).info_counter && final(self).focus == old(self).focus,
                _ => action == MenuAction::Stay && *final(self) == *old(self),
            },
    {
        match ev {
            MenuInput::Enter | MenuInput::Confirm => {
                self.remove_selected();
                MenuAction::Persist
            },
            MenuInput::Escape | MenuInput::Decline => {
                self.input_mode = InputMode::Normal;
                MenuAction::Stay
            },
            _ => MenuAction::Stay,
        }
    }

    fn input_editing_mode(&mut self, ev: MenuInput, edit_text: &str) -> (action: MenuAction)
        requires
            old(self).well_formed(),
            old(self).input_mode == InputMode::Editing,
        ensures
            final(self).well_formed(),
            match ev {
                MenuInput::Enter => action == MenuAction::Persist && final(self).input_mode
                    == InputMode::Normal && final(self).entries.entry@.len() == old(self).entries.entry@.len() && final(self).entries.entry@[old(self).spec_list_index() as int].spec_fields() == old(self).entries.entry@[old(self).spec_list_index() as int].spec_fields().update(
                    old(self).spec_info_index() as int,
                    if old(self).spec_info_index() == 0 {
                        spec_checked_name(old(self).spec_other_names(), edit_text@)
                    } else {
                        edit_text@
                    },
                ),
                MenuInput::Escape => action == MenuAction::Stay && final(self).entries == old(self).entries && final(self).input_mode == InputMode::Normal,
                _ => action == MenuAction::Stay && *final(self) == *old(self),
            },
    {
        match ev {
            MenuInput::Enter => {
                self.close_input_mode(edit_text);
                MenuAction::Persist
            },
            MenuInput::Escape => {
                self.input_mode = InputMode::Normal;
                MenuAction::Stay
            },
            _ => MenuAction::Stay,
        }
    }
}

} // verus!
