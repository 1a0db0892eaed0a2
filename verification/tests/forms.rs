use rosace_widgets::forms::error::FieldError;
use rosace_widgets::forms::field::{collect_errors, FieldListener, FormField, Unobserved};
use rosace_widgets::forms::validator::{
    email_valid, Contains, Email, FieldRule, MaxLength, MinLength, Required, Rule, Validator,
};

#[test]
fn field_error_new() {
    let e = FieldError::new("email", "invalid");
    assert_eq!(e.field, "email");
    assert_eq!(e.message, "invalid");
}

#[test]
fn field_error_display() {
    let e = FieldError::new("name", "required");
    assert_eq!(e.to_display_string(), "name: required");
}

#[test]
fn field_error_clone() {
    let e = FieldError::new("age", "too young");
    let c = e.clone();
    assert_eq!(e, c);
}

#[test]
fn form_field_new_empty() {
    let f = FormField::new("username");
    assert_eq!(f.name, "username");
    assert_eq!(f.get(), "");
    assert!(!f.is_touched());
    assert!(f.errors().is_empty());
}

#[test]
fn form_field_set_marks_touched() {
    let f = FormField::new("username");
    f.set("alice");
    assert!(f.is_touched());
    assert_eq!(f.get(), "alice");
}

#[test]
fn form_field_validate_no_rules_passes() {
    let f = FormField::new("bio");
    assert!(f.validate());
    assert!(f.is_valid());
}

#[test]
fn form_field_validate_required_fails_empty() {
    let f = FormField::new("name").rule(Required);
    assert!(!f.validate());
    assert!(!f.is_valid());
}

#[test]
fn form_field_validate_passes_with_value() {
    let f = FormField::new("name").rule(Required);
    f.set("alice");
    assert!(f.validate());
    assert!(f.is_valid());
}

#[test]
fn form_field_multiple_rules_all_checked() {
    let f = FormField::new("name").rule(Required).rule(MinLength(5));
    f.set("ab");
    assert!(!f.validate());
    // Only MinLength fails (Required passes since "ab" is non-empty)
    assert_eq!(f.errors().len(), 1);
    assert!(f.errors()[0].message.contains("5 characters"));
}

#[test]
fn form_field_errors_after_validate() {
    let f = FormField::new("email").rule(Required);
    f.validate();
    assert!(!f.errors().is_empty());
    assert_eq!(f.errors()[0].field, "email");
}

#[test]
fn form_field_reset_clears() {
    let f = FormField::new("name").rule(Required);
    f.set("alice");
    f.validate();
    f.reset();
    assert_eq!(f.get(), "");
    assert!(!f.is_touched());
    assert!(f.errors().is_empty());
}

#[test]
fn form_field_with_value() {
    let f = FormField::new("city").with_value("London");
    assert_eq!(f.get(), "London");
}

#[test]
fn cloning_a_field_shares_the_same_live_state() {
    let original = FormField::new("name").rule(Required);
    let widget_copy = original.clone();
    widget_copy.set("alice");
    assert_eq!(original.get(), "alice", "a clone's write must be visible through the original handle");
    assert!(original.is_touched());
    original.validate();
    assert!(widget_copy.is_valid(), "a clone must see validation results run through a DIFFERENT clone");
}

#[test]
fn with_value_does_not_mark_the_field_touched() {
    let f = FormField::new("city").with_value("Paris");
    assert!(!f.is_touched());
}

#[test]
fn check_reports_every_failing_rule_in_order_naming_the_field() {
    let f = FormField::new("handle").rule(MinLength(5)).rule(Contains("@"));
    let errs = f.check("ab");
    assert_eq!(errs.len(), 2);
    assert_eq!(errs[0], FieldError::new("handle", "Must be at least 5 characters."));
    assert_eq!(errs[1], FieldError::new("handle", "Must contain '@'."));
    assert!(f.check("@bcdef").is_empty());
}

#[test]
fn required_rejects_empty() {
    assert!(Required.validate("").is_some());
}

#[test]
fn required_rejects_whitespace() {
    assert!(Required.validate("   ").is_some());
}

#[test]
fn required_accepts_non_empty() {
    assert!(Required.validate("hello").is_none());
}

#[test]
fn min_length_rejects_short() {
    assert!(MinLength(5).validate("abc").is_some());
}

#[test]
fn min_length_accepts_exact() {
    assert!(MinLength(3).validate("abc").is_none());
}

#[test]
fn max_length_rejects_long() {
    assert!(MaxLength(3).validate("abcd").is_some());
}

#[test]
fn max_length_accepts_exact() {
    assert!(MaxLength(3).validate("abc").is_none());
}

#[test]
fn contains_rejects_missing() {
    assert!(Contains("@").validate("nodomain").is_some());
}

#[test]
fn contains_accepts_present() {
    assert!(Contains("@").validate("user@example.com").is_none());
}

#[test]
fn email_rejects_no_at() {
    assert!(Email.validate("nodomain.com").is_some());
}

#[test]
fn email_rejects_no_dot_after_at() {
    assert!(Email.validate("user@nodot").is_some());
}

#[test]
fn email_accepts_valid() {
    assert!(Email.validate("user@example.com").is_none());
}

#[test]
fn validator_messages_are_exact() {
    assert_eq!(Required.validate(" \t").unwrap(), "This field is required.");
    assert_eq!(MinLength(12).validate("short").unwrap(), "Must be at least 12 characters.");
    assert_eq!(MaxLength(0).validate("x").unwrap(), "Must be no more than 0 characters.");
    assert_eq!(Contains("xyz").validate("abc").unwrap(), "Must contain 'xyz'.");
    assert_eq!(Email.validate("a@b").unwrap(), "Must be a valid email address.");
}

#[test]
fn lengths_count_characters() {
    // "é" is one character (two bytes in UTF-8).
    assert!(MinLength(2).validate("é").is_some());
    assert!(MinLength(1).validate("é").is_none());
    assert!(MaxLength(1).validate("é").is_none());
    assert!(MaxLength(1).validate("éé").is_some());
}

#[test]
fn email_looks_only_between_the_first_and_second_at() {
    assert!(email_valid("a@b.c@d"));
    assert!(!email_valid("a@b@c.d"));
    assert!(!email_valid("@"));
    assert!(email_valid("@."));
}

#[test]
fn rules_report_their_names() {
    assert_eq!(Required.name(), "Required");
    assert_eq!(MinLength(1).name(), "MinLength");
    assert_eq!(MaxLength(1).name(), "MaxLength");
    assert_eq!(Contains("a").name(), "Contains");
    assert_eq!(Email.name(), "Email");
    assert_eq!(Rule::MinLength(3).name(), "MinLength");
    assert_eq!(Rule::MinLength(3).validate("ab"), MinLength(3).validate("ab"));
}

#[derive(Clone)]
struct Count(std::sync::Arc<std::sync::atomic::AtomicUsize>);

impl FieldListener for Count {
    fn changed(&self) {
        self.0.fetch_add(1, std::sync::atomic::Ordering::SeqCst);
    }
}

#[test]
fn listeners_hear_every_change_through_any_clone() {
    let app = Count(Default::default());
    let repaint = Count(Default::default());
    let f: FormField<Count> = FormField::observed("name");
    let f = f.rule(Required);
    f.on_change(app.clone());
    f.bind(repaint.clone());
    let copy = f.clone();
    copy.set("alice");
    assert_eq!(app.0.load(std::sync::atomic::Ordering::SeqCst), 2, "set changes the touched flag, then the value");
    assert!(f.validate());
    assert_eq!(app.0.load(std::sync::atomic::Ordering::SeqCst), 3);
    f.reset();
    assert_eq!(app.0.load(std::sync::atomic::Ordering::SeqCst), 6);
    assert_eq!(repaint.0.load(std::sync::atomic::Ordering::SeqCst), 6);
    assert_eq!(copy.get(), "");
}

/// An app's own rule: no spaces allowed.
#[derive(Clone)]
struct NoSpaces;

impl Validator for NoSpaces {
    fn validate(&self, value: &str) -> Option<String> {
        if value.contains(' ') { Some("No spaces.".to_string()) } else { None }
    }

    fn name(&self) -> &'static str {
        "NoSpaces"
    }
}

#[test]
fn custom_validator_beside_builtin_rules() {
    let f: FormField<Unobserved, NoSpaces> = FormField::observed("handle");
    let f = f.rule(Required).rule(FieldRule::Custom(NoSpaces)).rule(MaxLength(3));
    f.set("a bcd");
    assert!(!f.validate());
    let errs = f.errors();
    assert_eq!(errs.len(), 2);
    assert_eq!(errs[0].message, "No spaces.");
    assert_eq!(errs[1].message, "Must be no more than 3 characters.");
    f.set("");
    assert!(!f.validate());
    assert_eq!(f.errors().len(), 1);
    assert_eq!(f.errors()[0].message, "This field is required.");
    f.set("ab");
    assert!(f.validate());
    assert_eq!(FieldRule::Custom(NoSpaces).name(), "NoSpaces");
    assert_eq!(FieldRule::<NoSpaces>::Builtin(Rule::Email).name(), "Email");
}

#[test]
fn outcomes_and_collected_errors_follow_rule_order() {
    let f: FormField<Unobserved, NoSpaces> = FormField::observed("id");
    let f = f.rule(MinLength(4)).rule(FieldRule::Custom(NoSpaces)).rule(Contains("@"));
    let outs = f.outcomes("a b");
    assert_eq!(
        outs,
        vec![
            Some("Must be at least 4 characters.".to_string()),
            Some("No spaces.".to_string()),
            Some("Must contain '@'.".to_string()),
        ]
    );
    let errs = collect_errors("id", &vec![None, Some("x".to_string()), None, Some("y".to_string())]);
    assert_eq!(errs, vec![FieldError::new("id", "x"), FieldError::new("id", "y")]);
    let checked = f.check("a b");
    assert_eq!(checked.len(), 3);
    assert_eq!(checked[1], FieldError::new("id", "No spaces."));
    assert!(f.check("ab@cd").is_empty());
}
