use recipes::menu::{validate_user_selection, MainMenuOption, SelectionError};

#[test]
fn two_characters_are_too_many() {
    assert_eq!(validate_user_selection("AB\n"), Err(SelectionError::TooManyCharacters));
}

#[test]
fn quit_reaches_the_exit_state() {
    assert_eq!(validate_user_selection("Q\n"), Ok(MainMenuOption::Exit));
}

#[test]
fn empty_line_has_no_character() {
    assert_eq!(validate_user_selection(""), Err(SelectionError::NoCharacter));
    assert_eq!(validate_user_selection("\n"), Err(SelectionError::NoCharacter));
    assert_eq!(validate_user_selection("\r\n"), Err(SelectionError::NoCharacter));
}

#[test]
fn each_menu_letter_maps_to_its_action() {
    assert_eq!(validate_user_selection("a\n"), Ok(MainMenuOption::ShowAllRecipes));
    assert_eq!(validate_user_selection("b\n"), Ok(MainMenuOption::AddNewRecipe));
    assert_eq!(validate_user_selection("c\n"), Ok(MainMenuOption::RemoveRecipe));
    assert_eq!(validate_user_selection("q"), Ok(MainMenuOption::Exit));
}

#[test]
fn selection_is_case_insensitive() {
    assert_eq!(validate_user_selection("A\r\n"), Ok(MainMenuOption::ShowAllRecipes));
    assert_eq!(validate_user_selection("B"), Ok(MainMenuOption::AddNewRecipe));
    assert_eq!(validate_user_selection("C\n"), Ok(MainMenuOption::RemoveRecipe));
}

#[test]
fn letters_outside_the_alphabet_are_reported() {
    assert_eq!(validate_user_selection("z\n"), Err(SelectionError::NotInSelection('z')));
    assert_eq!(validate_user_selection("Z\n"), Err(SelectionError::NotInSelection('z')));
    assert_eq!(validate_user_selection("7"), Err(SelectionError::NotInSelection('7')));
}
