//! The menu-selection validator: one non-whitespace character, drawn
//! from the fixed menu alphabet, with each way an input line can fail
//! reported as its own error.  The surrounding read-retry loop lives
//! outside the library; exit is an explicit terminal state, not a side
//! effect.

use vstd::prelude::*;

use crate::text::lower_char;

verus! {

/// The actions the main menu offers; `Exit` is the terminal state of
/// the menu state machine.
#[derive(Clone, Copy, Debug, PartialEq, Eq, Structural)]
pub enum MainMenuOption {
    ShowAllRecipes,
    AddNewRecipe,
    RemoveRecipe,
    Exit,
}

/// The distinct ways a menu selection line is invalid; each re-enters
/// the awaiting-input state.
#[derive(Clone, Copy, Debug, PartialEq, Eq, Structural)]
pub enum SelectionError {
    /// The line is empty after removing the line break.
    NoCharacter,
    /// The line holds more than one character.
    TooManyCharacters,
    /// The (lowercased) character is outside the menu alphabet.
    NotInSelection(char),
}

/// The line with every trailing newline or carriage return removed.
pub open spec fn strip_newlines(s: Seq<char>) -> Seq<char>
    decreases s.len(),
{
    if s.len() > 0 && (s.last() == '\n' || s.last() == '\r') {
        strip_newlines(s.drop_last())
    } else {
        s
    }
}

/// What a selection line means: after stripping the line break it must
/// be exactly one character, and that character, lowercased, must be
/// one of the menu letters.
pub open spec fn selection_of_line(s: Seq<char>) -> Result<MainMenuOption, SelectionError> {
    let t = strip_newlines(s);
    if t.len() > 1 {
        Err(SelectionError::TooManyCharacters)
    } else if t.len() == 0 {
        Err(SelectionError::NoCharacter)
    } else {
        let c = lower_char(t[0]);
        if c == 'a' {
            Ok(MainMenuOption::ShowAllRecipes)
        } else if c == 'b' {
            Ok(MainMenuOption::AddNewRecipe)
        } else if c == 'c' {
            Ok(MainMenuOption::RemoveRecipe)
        } else if c == 'q' {
            Ok(MainMenuOption::Exit)
        } else {
            Err(SelectionError::NotInSelection(c))
        }
    }
}

/// Validates one menu selection line.
pub fn validate_user_selection(selection: &str) -> (r: Result<MainMenuOption, SelectionError>)
    ensures
        r == selection_of_line(selection@),
{
    let n: usize = selection.unicode_len();
    let mut end: usize = n;
    proof {
        assert(selection@.take(n as int) =~= selection@);
    }
    while end > 0 && (selection.get_char(end - 1) == '\n' || selection.get_char(end - 1) == '\r')
        invariant
            end <= n,
            n == selection@.len(),
            strip_newlines(selection@) == strip_newlines(selection@.take(end as int)),
        decreases end,
    {
        proof {
            let cur = selection@.take(end as int);
            assert(cur.last() == selection@[end - 1]);
            assert(cur.drop_last() =~= selection@.take(end - 1));
        }
        end = end - 1;
    }
    let ghost t = strip_newlines(selection@);
    proof {
        let cur = selection@.take(end as int);
        if end > 0 {
            assert(cur.last() == selection@[end - 1]);
        }
        assert(strip_newlines(cur) == cur);
        assert(t == cur);
    }
    if end > 1 {
        return Err(SelectionError::TooManyCharacters);
    }
    if end == 0 {
        return Err(SelectionError::NoCharacter);
    }
    let c = crate::text::lower_char_exec(selection.get_char(0));
    proof {
        assert(t[0] == selection@.take(end as int)[0]);
        assert(t[0] == selection@[0]);
    }
    if c == 'a' {
        Ok(MainMenuOption::ShowAllRecipes)
    } else if c == 'b' {
        Ok(MainMenuOption::AddNewRecipe)
    } else if c == 'c' {
        Ok(MainMenuOption::RemoveRecipe)
    } else if c == 'q' {
        Ok(MainMenuOption::Exit)
    } else {
        Err(SelectionError::NotInSelection(c))
    }
}

} // verus!