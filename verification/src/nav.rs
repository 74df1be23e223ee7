use vstd::prelude::*;

verus! {

/// Where the cursor comes to rest after moving one item forward: it
/// wraps to the first item behind the last, and enters a nonempty list
/// at the first item.
pub open spec fn next_cursor(sel: Option<usize>, len: int) -> Option<usize> {
    match sel {
        Some(i) => if i + 1 < len {
            Some((i + 1) as usize)
        } else {
            Some(0usize)
        },
        None => if len == 0 {
            None::<usize>
        } else {
            Some(0usize)
        },
    }
}

/// Where the cursor comes to rest after moving one item backward: it
/// wraps to the last item ahead of the first, and enters a nonempty list
/// at the first item.
pub open spec fn previous_cursor(sel: Option<usize>, len: int) -> Option<usize> {
    match sel {
        Some(i) => if i == 0 {
            Some((len - 1) as usize)
        } else {
            Some((i - 1) as usize)
        },
        None => if len == 0 {
            None::<usize>
        } else {
            Some(0usize)
        },
    }
}

/// A list paired with a navigation cursor, as the interactive front end
/// shows one: the cursor either rests on one item or on none.
pub struct StatefulList<T> {
    /// The items shown.
    items: Vec<T>,
    /// The position the cursor rests on, if any.
    selected: Option<usize>,
}

impl<T> StatefulList<T> {
    /// The items shown, as the contracts speak of them.
    pub closed spec fn spec_items(&self) -> Seq<T> {
        self.items@
    }

    /// The cursor, as the contracts speak of it.
    pub closed spec fn spec_selected(&self) -> Option<usize> {
        self.selected
    }

    /// Whether the cursor is inside the list.
    pub open spec fn inv(&self) -> bool {
        match self.spec_selected() {
            Some(i) => i < self.spec_items().len(),
            None => true,
        }
    }

    /// Creates an empty list with no cursor.
    pub fn new() -> (l: StatefulList<T>)
        ensures
            l.inv(),
            l.spec_items() == Seq::<T>::empty(),
            l.spec_selected() is None,
    {
        StatefulList { items: Vec::new(), selected: None }
    }

    /// The items shown.
    pub fn items(&self) -> (r: &Vec<T>)
        ensures
            r@ == self.spec_items(),
    {
        &self.items
    }

    /// The position the cursor rests on, if any.
    pub fn selected(&self) -> (r: Option<usize>)
        ensures
            r == self.spec_selected(),
    {
        self.selected
    }

    /// Replaces the items shown.  A cursor past the new end moves to the
    /// new last item, or leaves the list when it became empty; otherwise
    /// it stays where it was.
    pub fn set_items(&mut self, items: Vec<T>)
        requires
            old(self).inv(),
        ensures
            final(self).inv(),
            final(self).spec_items() == items@,
            final(self).spec_selected() == (match old(self).spec_selected() {
                Some(i) => if i < items@.len() {
                    Some(i)
                } else if items@.len() > 0 {
                    Some((items@.len() - 1) as usize)
                } else {
                    None::<usize>
                },
                None => None::<usize>,
            }),
    {
        let len = items.len();
        self.items = items;
        match self.selected {
            Some(i) => {
                if i >= len {
                    if len > 0 {
                        self.selected = Some(len - 1);
                    } else {
                        self.selected = None;
                    }
                }
            },
            None => {},
        }
    }

    /// Takes the cursor off the list.
    pub fn deselect(&mut self)
        requires
            old(self).inv(),
        ensures
            final(self).inv(),
            final(self).spec_items() == old(self).spec_items(),
            final(self).spec_selected() is None,
    {
        self.selected = None;
    }

    /// Moves the cursor to the next item, wrapping to the first behind
    /// the last; a cursor off a nonempty list enters at the first item.
    pub fn next(&mut self)
        requires
            old(self).inv(),
        ensures
            final(self).inv(),
            final(self).spec_items() == old(self).spec_items(),
            final(self).spec_selected() == next_cursor(
                old(self).spec_selected(),
                old(self).spec_items().len() as int,
            ),
    {
        let len = self.items.len();
        match self.selected {
            Some(i) => {
                if i + 1 < len {
                    self.selected = Some(i + 1);
                } else {
                    self.selected = Some(0);
                }
            },
            None => {
                if len > 0 {
                    self.selected = Some(0);
                }
            },
        }
    }

    /// Moves the cursor to the previous item, wrapping to the last ahead
    /// of the first; a cursor off a nonempty list enters at the first
    /// item.
    pub fn previous(&mut self)
        requires
            old(self).inv(),
        ensures
            final(self).inv(),
            final(self).spec_items() == old(self).spec_items(),
            final(self).spec_selected() == previous_cursor(
                old(self).spec_selected(),
                old(self).spec_items().len() as int,
            ),
    {
        let len = self.items.len();
        match self.selected {
            Some(i) => {
                if i == 0 {
                    self.selected = Some(len - 1);
                } else {
                    self.selected = Some(i - 1);
                }
            },
            None => {
                if len > 0 {
                    self.selected = Some(0);
                }
            },
        }
    }

    /// Puts the cursor on the first item of a nonempty list.
    pub fn first(&mut self)
        requires
            old(self).inv(),
        ensures
            final(self).inv(),
            final(self).spec_items() == old(self).spec_items(),
            final(self).spec_selected() == (if old(self).spec_items().len() > 0 {
                Some(0usize)
            } else {
                old(self).spec_selected()
            }),
    {
        if self.items.len() > 0 {
            self.selected = Some(0);
        }
    }

    /// Puts the cursor on the last item of a nonempty list.
    pub fn last(&mut self)
        requires
            old(self).inv(),
        ensures
            final(self).inv(),
            final(self).spec_items() == old(self).spec_items(),
            final(self).spec_selected() == (if old(self).spec_items().len() > 0 {
                Some((old(self).spec_items().len() - 1) as usize)
            } else {
                old(self).spec_selected()
            }),
    {
        let len = self.items.len();
        if len > 0 {
            self.selected = Some(len - 1);
        }
    }
}

/// One key stroke, as the interactive front end hands it over.
#[derive(Debug, Clone, Copy, PartialEq, Eq, Structural)]
pub enum Key {
    /// The up arrow.
    Up,
    /// The down arrow.
    Down,
    /// The right arrow.
    Right,
    /// The return key.
    Enter,
    /// The escape key.
    Esc,
    /// The backspace key.
    Backspace,
    /// The delete key.
    Delete,
    /// The home key.
    Home,
    /// The end key.
    End,
    /// A printable character.
    Char(char),
    /// Any other key.
    Other,
}

/// What the front end is to do after a key stroke, beyond redrawing:
/// nothing, open or remove the entry at a 1-based position, or run the
/// command typed into the prompt.
#[derive(Debug, Clone, Copy, PartialEq, Eq, Structural)]
pub enum Action {
    /// Nothing to do.
    Idle,
    /// Open the entry at the 1-based position in an external viewer.
    Open(usize),
    /// Remove the entry at the 1-based position from the shelf.
    Remove(usize),
    /// Run the command held in the prompt.
    Submit,
}

/// The interactive session's state: the entries' display names with
/// their cursor, the command prompt, and the flags driving the render
/// loop.
pub struct State {
    /// The entries' display names, with the navigation cursor.
    pub entries: StatefulList<String>,
    /// Whether the session is over.
    pub should_exit: bool,
    /// Whether the next cycle must redraw the screen.
    pub should_redraw: bool,
    /// Whether key strokes go into the command prompt.
    pub editing_prompt: bool,
    /// The characters typed into the command prompt.
    pub prompt: Vec<char>,
}

/// Whether two session states show the same list, cursor included.
pub open spec fn same_entries(o: State, f: State) -> bool {
    &&& f.entries.spec_items() == o.entries.spec_items()
    &&& f.entries.spec_selected() == o.entries.spec_selected()
}

/// Whether the key stroke moved only the cursor, to `sel`, and left a
/// redraw due.
pub open spec fn cursor_moved(o: State, f: State, sel: Option<usize>) -> bool {
    &&& f.entries.spec_items() == o.entries.spec_items()
    &&& f.entries.spec_selected() == sel
    &&& f.should_exit == o.should_exit
    &&& f.editing_prompt == o.editing_prompt
    &&& f.prompt@ == o.prompt@
    &&& f.should_redraw
}

/// Whether the key stroke changed nothing and left a redraw due.
pub open spec fn state_kept(o: State, f: State) -> bool {
    &&& same_entries(o, f)
    &&& f.should_exit == o.should_exit
    &&& f.editing_prompt == o.editing_prompt
    &&& f.prompt@ == o.prompt@
    &&& f.should_redraw
}

/// Whether the key stroke changed nothing and asked for no redraw.
pub open spec fn stroke_ignored(o: State, f: State) -> bool {
    &&& same_entries(o, f)
    &&& f.should_exit == o.should_exit
    &&& f.editing_prompt == o.editing_prompt
    &&& f.prompt@ == o.prompt@
    &&& !f.should_redraw
}

/// The open action a key stroke issues for the entry under the cursor,
/// at its 1-based position.
pub open spec fn open_action(sel: Option<usize>) -> Action {
    match sel {
        Some(i) => Action::Open((i + 1) as usize),
        None => Action::Idle,
    }
}

/// The remove action a key stroke issues for the entry under the cursor,
/// at its 1-based position.
pub open spec fn remove_action(sel: Option<usize>) -> Action {
    match sel {
        Some(i) => Action::Remove((i + 1) as usize),
        None => Action::Idle,
    }
}

impl State {
    /// Whether the session state is intact: its cursor is inside its
    /// list.
    pub open spec fn inv(&self) -> bool {
        self.entries.inv()
    }

    /// Creates the state a session starts in: nothing shown, nothing
    /// typed, no redraw pending.
    pub fn new() -> (s: State)
        ensures
            s.inv(),
            s.entries.spec_items() == Seq::<String>::empty(),
            s.entries.spec_selected() is None,
            !s.should_exit,
            !s.should_redraw,
            !s.editing_prompt,
            s.prompt@ == Seq::<char>::empty(),
    {
        State {
            entries: StatefulList::new(),
            should_exit: false,
            should_redraw: false,
            editing_prompt: false,
            prompt: Vec::new(),
        }
    }
}

/// Decides what one key stroke does to the interactive session.  While
/// the prompt is being edited, characters are typed into it, backspace
/// erases, escape leaves it, and return leaves it handing its command to
/// the caller.  Otherwise the arrows and their letter synonyms move the
/// cursor, return or the right arrow opens the entry under the cursor,
/// delete removes it, a letter opens the prompt, and escape ends the
/// session.  The caller performs the action issued and hands back the
/// next key.
pub fn handle_key(state: &mut State, key: Key) -> (a: Action)
    requires
        old(state).inv(),
    ensures
        final(state).inv(),
        ({
            let o = *old(state);
            let f = *final(state);
            let sel = o.entries.spec_selected();
            let len = o.entries.spec_items().len() as int;
            if o.editing_prompt {
                match key {
                    Key::Char(c) => same_entries(o, f) && f.prompt@ == o.prompt@.push(c)
                        && f.editing_prompt && f.should_exit == o.should_exit && f.should_redraw
                        && a == Action::Idle,
                    Key::Backspace => same_entries(o, f) && f.prompt@ == (if o.prompt@.len() > 0 {
                        o.prompt@.drop_last()
                    } else {
                        o.prompt@
                    }) && f.editing_prompt && f.should_exit == o.should_exit && f.should_redraw
                        && a == Action::Idle,
                    Key::Esc => same_entries(o, f) && f.prompt@ == o.prompt@ && !f.editing_prompt
                        && f.should_exit == o.should_exit && f.should_redraw && a == Action::Idle,
                    Key::Enter => same_entries(o, f) && f.prompt@ == o.prompt@
                        && !f.editing_prompt && f.should_exit == o.should_exit && f.should_redraw
                        && a == Action::Submit,
                    _ => stroke_ignored(o, f) && a == Action::Idle,
                }
            } else {
                match key {
                    Key::Up => cursor_moved(o, f, previous_cursor(sel, len)) && a == Action::Idle,
                    Key::Down => cursor_moved(o, f, next_cursor(sel, len)) && a == Action::Idle,
                    Key::Enter => state_kept(o, f) && a == open_action(sel),
                    Key::Right => state_kept(o, f) && a == open_action(sel),
                    Key::Home => cursor_moved(
                        o,
                        f,
                        if len > 0 {
                            Some(0usize)
                        } else {
                            sel
                        },
                    ) && a == Action::Idle,
                    Key::End => cursor_moved(
                        o,
                        f,
                        if len > 0 {
                            Some((len - 1) as usize)
                        } else {
                            sel
                        },
                    ) && a == Action::Idle,
                    Key::Delete => state_kept(o, f) && a == remove_action(sel),
                    Key::Esc => same_entries(o, f) && f.prompt@ == o.prompt@ && f.editing_prompt
                        == o.editing_prompt && f.should_exit && f.should_redraw && a
                        == Action::Idle,
                    Key::Char(c) => if c == 'k' {
                        cursor_moved(o, f, previous_cursor(sel, len)) && a == Action::Idle
                    } else if c == 'j' {
                        cursor_moved(o, f, next_cursor(sel, len)) && a == Action::Idle
                    } else if c == 'l' {
                        state_kept(o, f) && a == open_action(sel)
                    } else if c == 'K' {
                        cursor_moved(
                            o,
                            f,
                            if len > 0 {
                                Some(0usize)
                            } else {
                                sel
                            },
                        ) && a == Action::Idle
                    } else if c == 'J' {
                        cursor_moved(
                            o,
                            f,
                            if len > 0 {
                                Some((len - 1) as usize)
                            } else {
                                sel
                            },
                        ) && a == Action::Idle
                    } else if c == 'd' {
                        state_kept(o, f) && a == remove_action(sel)
                    } else if c == 'a' {
                        same_entries(o, f) && f.prompt@ == Seq::<char>::empty()
                            && f.editing_prompt && f.should_exit == o.should_exit
                            && f.should_redraw && a == Action::Idle
                    } else if c == 'q' {
                        same_entries(o, f) && f.prompt@ == o.prompt@ && f.editing_prompt
                            == o.editing_prompt && f.should_exit && f.should_redraw && a
                            == Action::Idle
                    } else {
                        stroke_ignored(o, f) && a == Action::Idle
                    },
                    _ => stroke_ignored(o, f) && a == Action::Idle,
                }
            }
        }),
{
    if state.editing_prompt {
        match key {
            Key::Char(c) => {
                state.prompt.push(c);
                state.should_redraw = true;
                Action::Idle
            },
            Key::Backspace => {
                let _ = state.prompt.pop();
                state.should_redraw = true;
                Action::Idle
            },
            Key::Esc => {
                state.editing_prompt = false;
                state.should_redraw = true;
                Action::Idle
            },
            Key::Enter => {
                state.editing_prompt = false;
                state.should_redraw = true;
                Action::Submit
            },
            _ => {
                state.should_redraw = false;
                Action::Idle
            },
        }
    } else {
        match key {
            Key::Up => {
                state.entries.previous();
                state.should_redraw = true;
                Action::Idle
            },
            Key::Down => {
                state.entries.next();
                state.should_redraw = true;
                Action::Idle
            },
            Key::Enter | Key::Right => {
                state.should_redraw = true;
                open_selected(state)
            },
            Key::Home => {
                state.entries.first();
                state.should_redraw = true;
                Action::Idle
            },
            Key::End => {
                state.entries.last();
                state.should_redraw = true;
                Action::Idle
            },
            Key::Delete => {
                state.should_redraw = true;
                remove_selected(state)
            },
            Key::Esc => {
                state.should_exit = true;
                state.should_redraw = true;
                Action::Idle
            },
            Key::Char(c) => {
                if c == 'k' {
                    state.entries.previous();
                    state.should_redraw = true;
                    Action::Idle
                } else if c == 'j' {
                    state.entries.next();
                    state.should_redraw = true;
                    Action::Idle
                } else if c == 'l' {
                    state.should_redraw = true;
                    open_selected(state)
                } else if c == 'K' {
                    state.entries.first();
                    state.should_redraw = true;
                    Action::Idle
                } else if c == 'J' {
                    state.entries.last();
                    state.should_redraw = true;
                    Action::Idle
                } else if c == 'd' {
                    state.should_redraw = true;
                    remove_selected(state)
                } else if c == 'a' {
                    state.editing_prompt = true;
                    state.prompt = Vec::new();
                    state.should_redraw = true;
                    Action::Idle
                } else if c == 'q' {
                    state.should_exit = true;
                    state.should_redraw = true;
                    Action::Idle
                } else {
                    state.should_redraw = false;
                    Action::Idle
                }
            },
            _ => {
                state.should_redraw = false;
                Action::Idle
            },
        }
    }
}

/// The open action for the entry under the cursor, at its 1-based
/// position.
fn open_selected(state: &State) -> (a: Action)
    requires
        state.inv(),
    ensures
        a == open_action(state.entries.spec_selected()),
{
    let count = state.entries.items().len();
    match state.entries.selected() {
        Some(i) => {
            proof {
                assert(i < count);
            }
            Action::Open(i + 1)
        },
        None => Action::Idle,
    }
}

/// The remove action for the entry under the cursor, at its 1-based
/// position.
fn remove_selected(state: &State) -> (a: Action)
    requires
        state.inv(),
    ensures
        a == remove_action(state.entries.spec_selected()),
{
    let count = state.entries.items().len();
    match state.entries.selected() {
        Some(i) => {
            proof {
                assert(i < count);
            }
            Action::Remove(i + 1)
        },
        None => Action::Idle,
    }
}

} // verus!
