use adf::validate::validate;
use adf::{parse, Adf, Severity, ValidationIssue, ValidationReport};
use std::borrow::Cow;

fn issues(input: &str) -> Vec<(Severity, String, String)> {
    parse(input)
        .unwrap()
        .validate()
        .issues
        .into_iter()
        .map(|issue| (issue.severity, issue.path.into_owned(), issue.message.into_owned()))
        .collect()
}

fn warning(path: &str, message: &str) -> (Severity, String, String) {
    (Severity::Warning, path.to_owned(), message.to_owned())
}

const COMPLETE: &str = "<prospect><requestdate/><vehicle><year/><make/><model/></vehicle>\
<customer><contact><name/><phone/></contact></customer><vendor><vendorname/></vendor></prospect>";

#[test]
fn a_document_without_prospects_is_invalid() {
    let report = parse("<adf/>").unwrap().validate();
    assert!(!report.is_valid());
    assert_eq!(
        report.issues,
        vec![ValidationIssue {
            severity: Severity::Error,
            path: Cow::Borrowed("adf"),
            message: Cow::Borrowed("ADF document should contain at least one prospect"),
        }]
    );
}

#[test]
fn an_empty_prospect_gives_warnings() {
    let report = parse("<adf><prospect /></adf>").unwrap().validate();
    assert!(report.is_valid());
    assert_eq!(
        issues("<adf><prospect /></adf>"),
        vec![
            warning("adf.prospect[0]", "prospect is missing requestdate"),
            warning("adf.prospect[0]", "prospect is missing vehicle"),
            warning("adf.prospect[0]", "prospect is missing customer"),
            warning("adf.prospect[0]", "prospect is missing vendor"),
        ]
    );
}

#[test]
fn a_complete_document_has_no_issue() {
    assert_eq!(issues(&format!("<adf>{}{}</adf>", COMPLETE, COMPLETE)), vec![]);
}

#[test]
fn issues_come_prospect_by_prospect() {
    let input = format!(
        "<adf>{}<prospect><requestdate/><vehicle><make/></vehicle><vehicle/><customer><contact/><contact><name/><email/></contact></customer><vendor/></prospect></adf>",
        COMPLETE
    );
    assert_eq!(
        issues(&input),
        vec![
            warning("adf.prospect[1].customer.contact[0]", "contact is missing name"),
            warning("adf.prospect[1].customer.contact[0]", "contact should contain email or phone"),
            warning("adf.prospect[1].vendor", "vendor is missing vendorname"),
            warning("adf.prospect[1].vehicle[0]", "vehicle is missing year"),
            warning("adf.prospect[1].vehicle[0]", "vehicle is missing model"),
            warning("adf.prospect[1].vehicle[1]", "vehicle is missing year"),
            warning("adf.prospect[1].vehicle[1]", "vehicle is missing make"),
            warning("adf.prospect[1].vehicle[1]", "vehicle is missing model"),
        ]
    );
}

#[test]
fn a_customer_needs_a_contact() {
    let input = "<adf><prospect><requestdate/><vehicle><year/><make/><model/></vehicle><customer/><vendor><vendorname/></vendor></prospect></adf>";
    assert_eq!(
        issues(input),
        vec![warning("adf.prospect[0].customer", "customer is missing contact")]
    );
}

#[test]
fn indices_are_decimal() {
    let mut input = String::from("<adf>");
    for _ in 0..11 {
        input.push_str(COMPLETE);
    }
    input.push_str("<prospect/></adf>");
    assert_eq!(
        issues(&input)[0],
        warning("adf.prospect[11]", "prospect is missing requestdate")
    );
}

#[test]
fn validity_depends_on_errors_alone() {
    let mut report = ValidationReport::default();
    assert!(report.is_valid());
    report.warn(Cow::Borrowed("p"), Cow::Borrowed("m"));
    assert!(report.is_valid());
    report.error(Cow::Borrowed("p"), Cow::Borrowed("m"));
    assert!(!report.is_valid());
    assert_eq!(report.issues.len(), 2);
    assert_eq!(report.clone(), report);
}

#[test]
fn validation_needs_the_model_only() {
    assert!(!validate(&Adf::default()).is_valid());
}
