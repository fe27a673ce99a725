//! Field checks of a signup record, with every violation collected per field.
use vstd::prelude::*;

verus! {

/// Whether validator's e-mail check accepts the text.
pub uninterp spec fn is_email(s: Seq<char>) -> bool;

/// Whether validator's URL check (an absolute URL that parses) accepts the text.
pub uninterp spec fn is_url(s: Seq<char>) -> bool;

/// Relies on `validator::ValidateEmail::validate_email` for a `String`: the verdict
/// depends on the text alone, and a text without `@` (the empty one among them)
/// is refused.
#[verifier::external_body]
fn email_ok(s: &String) -> (r: bool)
    ensures
        r == is_email(s@),
        !s@.contains('@') ==> !r,
{
    validator::ValidateEmail::validate_email(s)
}

/// Relies on `validator::ValidateUrl::validate_url` for a `String`: the verdict
/// depends on the text alone.
#[verifier::external_body]
fn url_ok(s: &String) -> (r: bool)
    ensures
        r == is_url(s@),
{
    validator::ValidateUrl::validate_url(s)
}

/// The bit pattern of the single-precision float `100.0`.
pub const HEIGHT_MAX_BITS: u32 = 0x42C8_0000;

/// The youngest age accepted.
pub const AGE_MIN: u32 = 18;

/// The oldest age accepted.
pub const AGE_MAX: u32 = 20;

/// A signup form as submitted; nothing is checked until it is validated.
#[derive(Debug, PartialEq, Eq)]
pub struct SignupData {
    pub mail: String,
    pub site: String,
    pub first_name: String,
    pub age: u32,
    /// The height as the bit pattern of an `f32` (`f32::to_bits`). Positive floats
    /// are ordered as their bit patterns, and a negative float or a NaN has a pattern
    /// above that of `100.0`.
    pub height_bits: u32,
}

/// The violations of one field: the field's name and a code for each failed check.
#[derive(Debug, PartialEq, Eq)]
pub struct FieldErrors {
    pub field: String,
    pub codes: Vec<String>,
}

impl View for FieldErrors {
    type V = (Seq<char>, Seq<Seq<char>>);

    open spec fn view(&self) -> (Seq<char>, Seq<Seq<char>>) {
        (self.field@, self.codes@.map_values(|c: String| c@))
    }
}

/// All violations of a record, one entry per field that has any, in field order.
#[derive(Debug, PartialEq, Eq)]
pub struct ValidationErrors {
    pub fields: Vec<FieldErrors>,
}

impl View for ValidationErrors {
    type V = Seq<(Seq<char>, Seq<Seq<char>>)>;

    open spec fn view(&self) -> Seq<(Seq<char>, Seq<Seq<char>>)> {
        self.fields@.map_values(|f: FieldErrors| f@)
    }
}

/// The entry for a field: present only when the field has violations.
pub open spec fn entry(field: Seq<char>, codes: Seq<Seq<char>>) -> Seq<(Seq<char>, Seq<Seq<char>>)> {
    if codes.len() == 0 {
        seq![]
    } else {
        seq![(field, codes)]
    }
}

/// One violation code when `ok` fails, none otherwise.
pub open spec fn code_unless(ok: bool, code: Seq<char>) -> Seq<Seq<char>> {
    if ok {
        seq![]
    } else {
        seq![code]
    }
}

/// The name that is taken and refused by the custom check.
pub open spec fn taken_name() -> Seq<char> {
    "xXxShad0wxXx"@
}

/// The violations of a first name: at least one character, and not the taken name.
pub open spec fn name_codes(name: Seq<char>) -> Seq<Seq<char>> {
    code_unless(name.len() >= 1, "length"@) + code_unless(name != taken_name(), "terrible_username123"@)
}

/// Whether the height lies in the interval from zero (excluded) to 100 (included).
pub open spec fn height_in_range(bits: u32) -> bool {
    0 < bits && bits <= HEIGHT_MAX_BITS
}

/// Every violation of a record, per field, in field order.
pub open spec fn violations(d: &SignupData) -> Seq<(Seq<char>, Seq<Seq<char>>)> {
    entry("mail"@, code_unless(is_email(d.mail@), "email"@)) + entry(
        "site"@,
        code_unless(is_url(d.site@), "url"@),
    ) + entry("first_name"@, name_codes(d.first_name@)) + entry(
        "age"@,
        code_unless(AGE_MIN <= d.age <= AGE_MAX, "range"@),
    ) + entry("height"@, code_unless(height_in_range(d.height_bits), "range"@))
}

fn push_code(codes: &mut Vec<String>, ok: bool, code: &str)
    ensures
        final(codes)@.map_values(|c: String| c@) == old(codes)@.map_values(|c: String| c@)
            + code_unless(ok, code@),
{
    let ghost before = codes@.map_values(|c: String| c@);
    if !ok {
        codes.push(String::from_str(code));
    }
    assert(codes@.map_values(|c: String| c@) =~= before + code_unless(ok, code@));
}

fn push_entry(out: &mut Vec<FieldErrors>, field: &str, codes: Vec<String>)
    ensures
        final(out)@.map_values(|f: FieldErrors| f@) == old(out)@.map_values(|f: FieldErrors| f@)
            + entry(field@, codes@.map_values(|c: String| c@)),
{
    let ghost before = out@.map_values(|f: FieldErrors| f@);
    let ghost cv = codes@.map_values(|c: String| c@);
    if codes.len() > 0 {
        out.push(FieldErrors { field: String::from_str(field), codes });
    }
    assert(out@.map_values(|f: FieldErrors| f@) =~= before + entry(field@, cv));
}

/// The custom check of a first name: the taken name is refused with its own code.
pub fn validate_unique_username(username: &String) -> (r: Result<(), String>)
    ensures
        r is Ok <==> username@ != taken_name(),
        r matches Err(code) ==> code@ == "terrible_username123"@,
{
    let taken = String::from_str("xXxShad0wxXx");
    if *username == taken {
        Err(String::from_str("terrible_username123"))
    } else {
        Ok(())
    }
}

impl SignupData {
    /// A form with the given fields.
    pub fn new(mail: String, site: String, first_name: String, age: u32, height_bits: u32) -> (r:
        SignupData)
        ensures
            r.mail@ == mail@,
            r.site@ == site@,
            r.first_name@ == first_name@,
            r.age == age,
            r.height_bits == height_bits,
    {
        SignupData { mail, site, first_name, age, height_bits }
    }

    /// Runs every check on every field and collects all violations.
    pub fn validate(&self) -> (r: ValidationErrors)
        ensures
            r@ == violations(self),
            // An empty e-mail is the only violation of a record whose other fields pass.
            self.mail@.len() == 0 && is_url(self.site@) && name_codes(self.first_name@).len() == 0
                && AGE_MIN <= self.age <= AGE_MAX && height_in_range(self.height_bits) ==> r@ == seq![
                ("mail"@, seq!["email"@]),
            ],
    {
        let mut out: Vec<FieldErrors> = Vec::new();
        assert(out@.map_values(|f: FieldErrors| f@) =~= Seq::<(Seq<char>, Seq<Seq<char>>)>::empty());

        let mut mail: Vec<String> = Vec::new();
        push_code(&mut mail, email_ok(&self.mail), "email");
        push_entry(&mut out, "mail", mail);

        let mut site: Vec<String> = Vec::new();
        push_code(&mut site, url_ok(&self.site), "url");
        push_entry(&mut out, "site", site);

        let mut name: Vec<String> = Vec::new();
        push_code(&mut name, self.first_name.as_str().unicode_len() >= 1, "length");
        match validate_unique_username(&self.first_name) {
            Ok(()) => {},
            Err(code) => {
                let ghost before = name@.map_values(|c: String| c@);
                name.push(code);
                assert(name@.map_values(|c: String| c@) =~= before + seq!["terrible_username123"@]);
            },
        }
        push_entry(&mut out, "first_name", name);

        let mut age: Vec<String> = Vec::new();
        push_code(&mut age, AGE_MIN <= self.age && self.age <= AGE_MAX, "range");
        push_entry(&mut out, "age", age);

        let mut height: Vec<String> = Vec::new();
        push_code(&mut height, 0 < self.height_bits && self.height_bits <= HEIGHT_MAX_BITS, "range");
        push_entry(&mut out, "height", height);

        proof {
            assert(Seq::<Seq<char>>::empty() + code_unless(self.first_name@.len() >= 1, "length"@) =~=
                code_unless(self.first_name@.len() >= 1, "length"@));
        }
        let r = ValidationErrors { fields: out };
        assert(r@ =~= violations(self));
        proof {
            if self.mail@.len() == 0 {
                assert(!self.mail@.contains('@'));
            }
        }
        r
    }
}

/// Validates a record: the record itself when it has no violation, else all of them.
pub fn check_data(data: &SignupData) -> (r: Result<&SignupData, ValidationErrors>)
    ensures
        violations(data).len() == 0 ==> r == Ok::<&SignupData, ValidationErrors>(data),
        violations(data).len() > 0 ==> (r matches Err(e) && e@ == violations(data)),
{
    let e = data.validate();
    if e.fields.len() == 0 {
        Ok(data)
    } else {
        Err(e)
    }
}

} // verus!
