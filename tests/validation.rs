use universal::validation::{check_data, FieldErrors, SignupData, ValidationErrors};

fn signup(mail: &str, site: &str, name: &str, age: u32, height: f32) -> SignupData {
    SignupData::new(mail.to_string(), site.to_string(), name.to_string(), age, height.to_bits())
}

fn only(field: &str, codes: &[&str]) -> ValidationErrors {
    ValidationErrors {
        fields: vec![FieldErrors {
            field: field.to_string(),
            codes: codes.iter().map(|c| c.to_string()).collect(),
        }],
    }
}

#[test]
fn test_validator_mail_error() {
    let data = signup("invalid_email", "https://example.com", "CN059", 19, 50.0);
    let errors = data.validate();
    println!("Validation errors: {:?}", errors);
    assert_eq!(errors, only("mail", &["email"]));
}

#[test]
fn test_validator_check_data_function() {
    let data = signup("", "https://example.com", "CN059", 19, 50.0);
    let errors = data.validate();
    println!("Validation errors: {:?}", errors);
    assert_eq!(errors, only("mail", &["email"]));
    match check_data(&data) {
        Ok(_) => panic!("an empty e-mail passed"),
        Err(e) => assert_eq!(e, only("mail", &["email"])),
    }
}

#[test]
fn a_valid_record_passes() {
    let data = signup("someone@example.com", "https://example.com", "CN059", 19, 50.0);
    assert_eq!(data.validate().fields.len(), 0);
    assert_eq!(check_data(&data).unwrap(), &data);
}

#[test]
fn every_field_is_checked_and_all_violations_collected() {
    let data = signup("nobody", "not a url", "", 21, 0.0);
    let errors = data.validate();
    let fields: Vec<&str> = errors.fields.iter().map(|f| f.field.as_str()).collect();
    assert_eq!(fields, vec!["mail", "site", "first_name", "age", "height"]);
    assert_eq!(errors.fields[0].codes, vec!["email".to_string()]);
    assert_eq!(errors.fields[1].codes, vec!["url".to_string()]);
    assert_eq!(errors.fields[2].codes, vec!["length".to_string()]);
    assert_eq!(errors.fields[3].codes, vec!["range".to_string()]);
    assert_eq!(errors.fields[4].codes, vec!["range".to_string()]);
}

#[test]
fn the_taken_name_is_refused() {
    let data = signup("a@b.com", "https://example.com", "xXxShad0wxXx", 18, 100.0);
    assert_eq!(data.validate(), only("first_name", &["terrible_username123"]));
}

#[test]
fn age_bounds_are_inclusive() {
    for (age, ok) in [(17u32, false), (18, true), (20, true), (21, false), (0, false), (u32::MAX, false)] {
        let data = signup("a@b.com", "https://example.com", "n", age, 1.0);
        assert_eq!(data.validate().fields.is_empty(), ok, "age {}", age);
    }
}

#[test]
fn height_excludes_zero_and_includes_one_hundred() {
    let cases = [
        (0.0f32, false),
        (-0.0, false),
        (f32::MIN_POSITIVE, true),
        (1e-45, true),
        (100.0, true),
        (100.00001, false),
        (-5.0, false),
        (f32::NAN, false),
        (f32::INFINITY, false),
        (f32::NEG_INFINITY, false),
    ];
    for (height, ok) in cases {
        let data = signup("a@b.com", "https://example.com", "n", 19, height);
        assert_eq!(data.validate().fields.is_empty(), ok, "height {}", height);
        assert_eq!(ok, height > 0.0 && height <= 100.0);
    }
}
