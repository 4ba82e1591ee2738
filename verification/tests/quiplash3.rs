use jackbox_custom_content::forms::{FormKind, FormManager, FormObject, FormValue};
use jackbox_custom_content::quiplash3::{
    round_question_path, Quiplash3RoundManifestItem, QuiplashGenericRoundPrompt, QuiplashRoundPrompt, Round1Question,
};

fn round_form(final_round: bool, prompt: &str) -> QuiplashGenericRoundPrompt {
    let mut f = FormManager::new();
    f.add_form_object(FormObject::new(FormKind::LabelledBox, true, "Prompt Text".to_string(), FormValue::Text(prompt.to_string())));
    f.add_form_object(FormObject::new(FormKind::Checkbox, false, "Includes Player Name".to_string(), FormValue::Bool(false)));
    f.add_form_object(FormObject::new(FormKind::LabelledBox, false, "Safety Quips".to_string(), FormValue::TextList(vec![])));
    f.add_form_object(FormObject::new(FormKind::Checkbox, false, "Content is US-Specific".to_string(), FormValue::Bool(false)));
    f.add_form_object(FormObject::new(FormKind::Checkbox, false, "Contains Adult Content".to_string(), FormValue::Bool(false)));
    QuiplashGenericRoundPrompt { final_round, form_manager: f }
}

fn window(prompts: [&str; 3]) -> QuiplashRoundPrompt {
    QuiplashRoundPrompt::new(vec![round_form(false, prompts[0]), round_form(false, prompts[1]), round_form(true, prompts[2])])
}

#[test]
fn round1_list_path() {
    assert_eq!(Round1Question::CONTENT_NAME, "Round1Question");
    assert_eq!(Round1Question::content_path(), "../games/Quiplash3/Quiplash3Round1Question.jet");
    assert_eq!(round_question_path("FinalRoundQuestion"), "../games/Quiplash3/Quiplash3FinalRoundQuestion.jet");
    assert_eq!(Round1Question::save_as_json(), "");
}

#[test]
fn pages_selected_by_index() {
    let mut w = window(["a", "b", "c"]);
    assert_eq!(w.get_selected_idx(), Some(0));
    assert!(w.get_selected().filters_visible());
    w.set_selected_idx(Some(2));
    assert_eq!(w.get_selected_idx(), Some(2));
    assert!(w.get_selected().final_round);
    assert!(!w.get_selected().filters_visible());
    w.set_selected_idx(Some(7));
    assert_eq!(w.get_selected_idx(), Some(2));
    w.set_selected_idx(Some(0));
    w.set_selected_idx(None);
    assert_eq!(w.get_selected_idx(), Some(2));
    let empty = QuiplashRoundPrompt::new(vec![]);
    assert_eq!(empty.get_selected_idx(), None);
}

#[test]
fn create_finalizes_filled_page() {
    let mut w = window(["Who is the best?", "", ""]);
    let (round, item) = w.handle_create_clicked().expect("the page is filled in");
    assert_eq!(round, "Round1");
    assert_eq!(item.prompt, "Who is the best?");
    assert!(!item.includes_player_name);
    assert!(item.safety_quips.is_empty());
    assert!(!item.us);
    assert!(!item.x);
}

#[test]
fn create_refused_for_empty_prompt() {
    let mut w = window(["", "", ""]);
    w.set_selected_idx(Some(1));
    assert!(w.handle_create_clicked().is_none());
    assert!(w.get_selected().form_manager.form_objects[0].error_shown);
    assert_eq!(w.get_selected_idx(), Some(1));
}

#[test]
fn final_round_named() {
    let mut w = window(["", "", "Last one"]);
    w.set_selected_idx(Some(2));
    let (round, item) = w.finalize_content();
    assert_eq!(round, "FinalRound");
    assert_eq!(item.prompt, "Last one");
}

#[test]
fn loaded_item_comes_back() {
    let mut w = window(["", "", ""]);
    w.set_selected_idx(Some(1));
    let item = Quiplash3RoundManifestItem {
        includes_player_name: true,
        prompt: "Name a thing".to_string(),
        safety_quips: vec![],
        us: true,
        x: false,
    };
    assert_eq!(w.load_content(&"Round2".to_string(), Some(item)), Ok(()));
    assert_eq!(w.get_selected_idx(), Some(1));
    let (round, back) = w.handle_create_clicked().expect("filled in by the load");
    assert_eq!(round, "Round2");
    assert_eq!(back.prompt, "Name a thing");
    assert!(back.includes_player_name);
    assert!(back.us);
    assert!(!back.x);
}

#[test]
fn load_switches_to_the_round() {
    let mut w = window(["", "", ""]);
    let item = Quiplash3RoundManifestItem {
        includes_player_name: false,
        prompt: "p".to_string(),
        safety_quips: vec!["q1".to_string()],
        us: false,
        x: true,
    };
    assert_eq!(w.load_content(&"FinalRound".to_string(), Some(item)), Ok(()));
    assert_eq!(w.get_selected_idx(), Some(2));
    w.set_selected_idx(Some(0));
    let (_, loaded) = w.finalize_content();
    assert_eq!(loaded.prompt, "p");
    assert_eq!(loaded.safety_quips, vec!["q1".to_string()]);
    assert!(loaded.x);
}

#[test]
fn unknown_round_shows_last_page() {
    let mut w = window(["", "", ""]);
    let item = Quiplash3RoundManifestItem { includes_player_name: false, prompt: "p".to_string(), safety_quips: vec![], us: false, x: false };
    assert_eq!(w.load_content(&"Bonus".to_string(), Some(item)), Ok(()));
    assert_eq!(w.get_selected_idx(), Some(2));
}

#[test]
fn unreadable_manifest_reported() {
    let mut w = window(["", "", ""]);
    assert_eq!(w.load_content(&"Round1".to_string(), None), Err("Could not read manifest.".to_string()));
    assert_eq!(w.get_selected_idx(), Some(0));
}
