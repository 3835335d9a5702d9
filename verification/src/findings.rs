//! What a report holds: each finding about a document that is true of it, in order, and
//! nothing else.

use crate::model::{AdfView, ContactView, CustomerView, ProspectView, VehicleView};
use crate::validate::{IssueView, Severity};
use crate::{lexical, text, validate};
use vstd::prelude::*;

verus! {

/// What can be found about a document. Prospects, contacts and vehicles are counted from 0.
pub enum Finding {
    /// There is no prospect.
    NoProspect,
    /// A prospect has no request date.
    NoRequestDate { prospect: nat },
    /// A prospect has no vehicle.
    NoVehicle { prospect: nat },
    /// A prospect has no customer.
    NoCustomer { prospect: nat },
    /// A prospect has no vendor.
    NoVendor { prospect: nat },
    /// The customer of a prospect has no contact.
    NoContact { prospect: nat },
    /// A contact of a customer has no name.
    NoName { prospect: nat, contact: nat },
    /// A contact of a customer has neither an email address nor a phone number.
    NoReach { prospect: nat, contact: nat },
    /// The vendor of a prospect has no name.
    NoVendorName { prospect: nat },
    /// A vehicle has no year.
    NoYear { prospect: nat, vehicle: nat },
    /// A vehicle has no make.
    NoMake { prospect: nat, vehicle: nat },
    /// A vehicle has no model.
    NoModel { prospect: nat, vehicle: nat },
}

/// A finding is true of a prospect.
pub open spec fn true_of(finding: Finding, prospect: ProspectView) -> bool {
    match finding {
        Finding::NoProspect => false,
        Finding::NoRequestDate { .. } => prospect.request_date is None,
        Finding::NoVehicle { .. } => prospect.vehicles.len() == 0,
        Finding::NoCustomer { .. } => prospect.customer is None,
        Finding::NoVendor { .. } => prospect.vendor is None,
        Finding::NoContact { .. } => prospect.customer matches Some(customer)
            && customer.contacts.len() == 0,
        Finding::NoName { contact, .. } => prospect.customer matches Some(customer) && contact
            < customer.contacts.len() && customer.contacts[contact as int].names.len() == 0,
        Finding::NoReach { contact, .. } => prospect.customer matches Some(customer) && contact
            < customer.contacts.len() && customer.contacts[contact as int].emails.len() == 0
            && customer.contacts[contact as int].phones.len() == 0,
        Finding::NoVendorName { .. } => prospect.vendor matches Some(vendor)
            && vendor.vendor_name is None,
        Finding::NoYear { vehicle, .. } => vehicle < prospect.vehicles.len()
            && prospect.vehicles[vehicle as int].year is None,
        Finding::NoMake { vehicle, .. } => vehicle < prospect.vehicles.len()
            && prospect.vehicles[vehicle as int].make is None,
        Finding::NoModel { vehicle, .. } => vehicle < prospect.vehicles.len()
            && prospect.vehicles[vehicle as int].model is None,
    }
}

/// Where a finding stands in a report: by prospect, then by part, then by contact or
/// vehicle, then by kind.
pub open spec fn place(finding: Finding) -> (int, int, int, int) {
    match finding {
        Finding::NoProspect => (-1, 0, 0, 0),
        Finding::NoRequestDate { prospect } => (prospect as int, 0, 0, 0),
        Finding::NoVehicle { prospect } => (prospect as int, 0, 0, 1),
        Finding::NoCustomer { prospect } => (prospect as int, 0, 0, 2),
        Finding::NoVendor { prospect } => (prospect as int, 0, 0, 3),
        Finding::NoContact { prospect } => (prospect as int, 1, 0, 0),
        Finding::NoName { prospect, contact } => (prospect as int, 2, contact as int, 0),
        Finding::NoReach { prospect, contact } => (prospect as int, 2, contact as int, 1),
        Finding::NoVendorName { prospect } => (prospect as int, 3, 0, 0),
        Finding::NoYear { prospect, vehicle } => (prospect as int, 4, vehicle as int, 0),
        Finding::NoMake { prospect, vehicle } => (prospect as int, 4, vehicle as int, 1),
        Finding::NoModel { prospect, vehicle } => (prospect as int, 4, vehicle as int, 2),
    }
}

/// A finding stands before another.
pub open spec fn precedes(a: Finding, b: Finding) -> bool {
    let (p, s, i, k) = place(a);
    let (q, t, j, l) = place(b);
    p < q || (p == q && (s < t || (s == t && (i < j || (i == j && k < l)))))
}

/// A finding is true of a document.
pub open spec fn holds(adf: AdfView, finding: Finding) -> bool {
    let prospect = place(finding).0;
    if finding is NoProspect {
        adf.prospects.len() == 0
    } else {
        0 <= prospect < adf.prospects.len() && true_of(finding, adf.prospects[prospect])
    }
}

/// The path of a prospect.
pub open spec fn prospect_path(prospect: nat) -> Seq<char> {
    "adf.prospect["@ + text::decimal(prospect) + "]"@
}

/// The path of what a finding is about.
pub open spec fn path(finding: Finding) -> Seq<char> {
    match finding {
        Finding::NoProspect => "adf"@,
        Finding::NoRequestDate { prospect } => prospect_path(prospect),
        Finding::NoVehicle { prospect } => prospect_path(prospect),
        Finding::NoCustomer { prospect } => prospect_path(prospect),
        Finding::NoVendor { prospect } => prospect_path(prospect),
        Finding::NoContact { prospect } => prospect_path(prospect) + ".customer"@,
        Finding::NoName { prospect, contact } => prospect_path(prospect) + ".customer.contact["@
            + text::decimal(contact) + "]"@,
        Finding::NoReach { prospect, contact } => prospect_path(prospect) + ".customer.contact["@
            + text::decimal(contact) + "]"@,
        Finding::NoVendorName { prospect } => prospect_path(prospect) + ".vendor"@,
        Finding::NoYear { prospect, vehicle } => prospect_path(prospect) + ".vehicle["@
            + text::decimal(vehicle) + "]"@,
        Finding::NoMake { prospect, vehicle } => prospect_path(prospect) + ".vehicle["@
            + text::decimal(vehicle) + "]"@,
        Finding::NoModel { prospect, vehicle } => prospect_path(prospect) + ".vehicle["@
            + text::decimal(vehicle) + "]"@,
    }
}

/// What a finding says.
pub open spec fn message(finding: Finding) -> Seq<char> {
    match finding {
        Finding::NoProspect => "ADF document should contain at least one prospect"@,
        Finding::NoRequestDate { .. } => "prospect is missing requestdate"@,
        Finding::NoVehicle { .. } => "prospect is missing vehicle"@,
        Finding::NoCustomer { .. } => "prospect is missing customer"@,
        Finding::NoVendor { .. } => "prospect is missing vendor"@,
        Finding::NoContact { .. } => "customer is missing contact"@,
        Finding::NoName { .. } => "contact is missing name"@,
        Finding::NoReach { .. } => "contact should contain email or phone"@,
        Finding::NoVendorName { .. } => "vendor is missing vendorname"@,
        Finding::NoYear { .. } => "vehicle is missing year"@,
        Finding::NoMake { .. } => "vehicle is missing make"@,
        Finding::NoModel { .. } => "vehicle is missing model"@,
    }
}

/// The issue that a finding is reported as. Only a document without prospects is an error.
pub open spec fn issue(finding: Finding) -> IssueView {
    IssueView {
        severity: if finding is NoProspect {
            Severity::Error
        } else {
            Severity::Warning
        },
        path: path(finding),
        message: message(finding),
    }
}

/// Each finding stands before those behind it.
pub open spec fn in_order(findings: Seq<Finding>) -> bool {
    forall|i: int, j: int|
        0 <= i < j < findings.len() ==> precedes(#[trigger] findings[i], #[trigger] findings[j])
}

/// Findings are all those of a kind, in order.
pub open spec fn lists(findings: Seq<Finding>, kind: spec_fn(Finding) -> bool) -> bool {
    &&& in_order(findings)
    &&& forall|f: Finding| #[trigger] findings.contains(f) <==> kind(f)
}

/// A report holds an issue for each of some findings.
pub open spec fn reported(issues: Seq<IssueView>, findings: Seq<Finding>) -> bool {
    &&& issues.len() == findings.len()
    &&& forall|i: int| 0 <= i < issues.len() ==> #[trigger] issues[i] == issue(findings[i])
}

proof fn lemma_lists_concat(
    a: Seq<Finding>,
    of_a: spec_fn(Finding) -> bool,
    b: Seq<Finding>,
    of_b: spec_fn(Finding) -> bool,
    of_both: spec_fn(Finding) -> bool,
)
    requires
        lists(a, of_a),
        lists(b, of_b),
        forall|f: Finding, g: Finding| #[trigger] of_a(f) && #[trigger] of_b(g) ==> precedes(f, g),
        forall|f: Finding| #[trigger] of_both(f) <==> of_a(f) || of_b(f),
    ensures
        lists(a + b, of_both),
{
    let both = a + b;
    assert forall|i: int, j: int| 0 <= i < j < both.len() implies precedes(
        #[trigger] both[i],
        #[trigger] both[j],
    ) by {
        if j < a.len() {
            assert(both[i] == a[i] && both[j] == a[j]);
        } else if i >= a.len() {
            assert(both[i] == b[i - a.len()] && both[j] == b[j - a.len()]);
        } else {
            assert(both[i] == a[i] && both[j] == b[j - a.len()]);
            assert(a.contains(a[i]) && b.contains(b[j - a.len()]));
            assert(of_a(a[i]) && of_b(b[j - a.len()]));
        }
    }
    assert forall|f: Finding| #[trigger] both.contains(f) <==> of_both(f) by {
        if both.contains(f) {
            let i = both.index_of(f);
            if i < a.len() {
                assert(a[i] == f);
                assert(a.contains(f));
            } else {
                assert(b[i - a.len()] == f);
                assert(b.contains(f));
            }
            assert(of_both(f));
        }
        if of_both(f) {
            if of_a(f) {
                assert(a.contains(f));
                let i = a.index_of(f);
                assert(both[i] == f);
            } else {
                assert(b.contains(f));
                let i = b.index_of(f);
                assert(both[i + a.len()] == f);
            }
        }
    }
}

proof fn lemma_reported_concat(
    a: Seq<IssueView>,
    of_a: Seq<Finding>,
    b: Seq<IssueView>,
    of_b: Seq<Finding>,
)
    requires
        reported(a, of_a),
        reported(b, of_b),
    ensures
        reported(a + b, of_a + of_b),
{
}

/// A finding, if there is reason for it.
spec fn one(reason: bool, finding: Finding) -> Seq<Finding> {
    if reason {
        seq![finding]
    } else {
        seq![]
    }
}

proof fn lemma_one(reason: bool, finding: Finding, at: Seq<char>, says: Seq<char>)
    requires
        at == path(finding),
        says == message(finding),
        !(finding is NoProspect),
    ensures
        lists(one(reason, finding), |f: Finding| reason && f == finding),
        reported(validate::warning(reason, at, says), one(reason, finding)),
{
    let findings = one(reason, finding);
    assert forall|f: Finding| #[trigger] findings.contains(f) <==> reason && f == finding by {
        if reason {
            assert(findings[0] == finding);
        }
    }
}

/// The findings about the first contacts.
spec fn about_contacts(p: nat, contacts: Seq<ContactView>, n: nat, f: Finding) -> bool {
    match f {
        Finding::NoName { prospect, contact } => prospect == p && contact < n
            && contacts[contact as int].names.len() == 0,
        Finding::NoReach { prospect, contact } => prospect == p && contact < n
            && contacts[contact as int].emails.len() == 0
            && contacts[contact as int].phones.len() == 0,
        _ => false,
    }
}

spec fn contacts_list(p: nat, contacts: Seq<ContactView>, n: nat) -> Seq<Finding>
    decreases n,
{
    if n == 0 {
        seq![]
    } else {
        let i = (n - 1) as nat;
        let contact = contacts[i as int];
        contacts_list(p, contacts, i) + (one(
            contact.names.len() == 0,
            Finding::NoName { prospect: p, contact: i },
        ) + one(
            contact.emails.len() == 0 && contact.phones.len() == 0,
            Finding::NoReach { prospect: p, contact: i },
        ))
    }
}

/// The paths that the validator builds are those of the findings.
proof fn lemma_item_path(parent: Seq<char>, list: Seq<char>, opened: Seq<char>, i: nat)
    requires
        opened == list + "["@,
    ensures
        validate::item_path(parent + list, i) == parent + opened + text::decimal(i) + "]"@,
{
    assert(validate::item_path(parent + list, i) =~= parent + opened + text::decimal(i) + "]"@);
}

proof fn lemma_brackets()
    ensures
        ".customer.contact["@ == ".customer.contact"@ + "["@,
        ".vehicle["@ == ".vehicle"@ + "["@,
        "adf.prospect["@ == "adf.prospect"@ + "["@,
{
    reveal_strlit("[");
    reveal_strlit(".customer.contact[");
    reveal_strlit(".customer.contact");
    reveal_strlit(".vehicle[");
    reveal_strlit(".vehicle");
    reveal_strlit("adf.prospect[");
    reveal_strlit("adf.prospect");
    assert(".customer.contact["@ =~= ".customer.contact"@ + "["@);
    assert(".vehicle["@ =~= ".vehicle"@ + "["@);
    assert("adf.prospect["@ =~= "adf.prospect"@ + "["@);
}

proof fn lemma_contacts(p: nat, contacts: Seq<ContactView>, n: nat)
    requires
        n <= contacts.len(),
    ensures
        lists(contacts_list(p, contacts, n), |f: Finding| about_contacts(p, contacts, n, f)),
        reported(
            validate::contacts_issues(prospect_path(p), contacts, n),
            contacts_list(p, contacts, n),
        ),
    decreases n,
{
    if n == 0 {
        let none = contacts_list(p, contacts, 0);
        assert forall|f: Finding| #[trigger] none.contains(f) <==> about_contacts(
            p,
            contacts,
            0,
            f,
        ) by {}
    } else {
        let i = (n - 1) as nat;
        let contact = contacts[i as int];
        lemma_contacts(p, contacts, i);
        lemma_brackets();
        lemma_item_path(prospect_path(p), ".customer.contact"@, ".customer.contact["@, i);
        let at = validate::item_path(prospect_path(p) + ".customer.contact"@, i);
        let name = Finding::NoName { prospect: p, contact: i };
        let reach = Finding::NoReach { prospect: p, contact: i };
        let no_name = contact.names.len() == 0;
        let no_reach = contact.emails.len() == 0 && contact.phones.len() == 0;
        lemma_one(no_name, name, at, "contact is missing name"@);
        lemma_one(no_reach, reach, at, "contact should contain email or phone"@);
        lemma_lists_concat(
            one(no_name, name),
            |f: Finding| no_name && f == name,
            one(no_reach, reach),
            |f: Finding| no_reach && f == reach,
            |f: Finding| (no_name && f == name) || (no_reach && f == reach),
        );
        lemma_lists_concat(
            contacts_list(p, contacts, i),
            |f: Finding| about_contacts(p, contacts, i, f),
            one(no_name, name) + one(no_reach, reach),
            |f: Finding| (no_name && f == name) || (no_reach && f == reach),
            |f: Finding| about_contacts(p, contacts, n, f),
        );
        lemma_reported_concat(
            validate::warning(no_name, at, "contact is missing name"@),
            one(no_name, name),
            validate::warning(no_reach, at, "contact should contain email or phone"@),
            one(no_reach, reach),
        );
        lemma_reported_concat(
            validate::contacts_issues(prospect_path(p), contacts, i),
            contacts_list(p, contacts, i),
            validate::contact_issues(at, contact),
            one(no_name, name) + one(no_reach, reach),
        );
    }
}

/// The findings about the first vehicles.
spec fn about_vehicles(p: nat, vehicles: Seq<VehicleView>, n: nat, f: Finding) -> bool {
    match f {
        Finding::NoYear { prospect, vehicle } => prospect == p && vehicle < n
            && vehicles[vehicle as int].year is None,
        Finding::NoMake { prospect, vehicle } => prospect == p && vehicle < n
            && vehicles[vehicle as int].make is None,
        Finding::NoModel { prospect, vehicle } => prospect == p && vehicle < n
            && vehicles[vehicle as int].model is None,
        _ => false,
    }
}

spec fn vehicles_list(p: nat, vehicles: Seq<VehicleView>, n: nat) -> Seq<Finding>
    decreases n,
{
    if n == 0 {
        seq![]
    } else {
        let i = (n - 1) as nat;
        let vehicle = vehicles[i as int];
        vehicles_list(p, vehicles, i) + (one(
            vehicle.year is None,
            Finding::NoYear { prospect: p, vehicle: i },
        ) + one(vehicle.make is None, Finding::NoMake { prospect: p, vehicle: i }) + one(
            vehicle.model is None,
            Finding::NoModel { prospect: p, vehicle: i },
        ))
    }
}

proof fn lemma_vehicles(p: nat, vehicles: Seq<VehicleView>, n: nat)
    requires
        n <= vehicles.len(),
    ensures
        lists(vehicles_list(p, vehicles, n), |f: Finding| about_vehicles(p, vehicles, n, f)),
        reported(
            validate::vehicles_issues(prospect_path(p), vehicles, n),
            vehicles_list(p, vehicles, n),
        ),
    decreases n,
{
    if n == 0 {
        let none = vehicles_list(p, vehicles, 0);
        assert forall|f: Finding| #[trigger] none.contains(f) <==> about_vehicles(
            p,
            vehicles,
            0,
            f,
        ) by {}
    } else {
        let i = (n - 1) as nat;
        let vehicle = vehicles[i as int];
        lemma_vehicles(p, vehicles, i);
        lemma_brackets();
        lemma_item_path(prospect_path(p), ".vehicle"@, ".vehicle["@, i);
        let at = validate::item_path(prospect_path(p) + ".vehicle"@, i);
        let year = Finding::NoYear { prospect: p, vehicle: i };
        let make = Finding::NoMake { prospect: p, vehicle: i };
        let model = Finding::NoModel { prospect: p, vehicle: i };
        let no_year = vehicle.year is None;
        let no_make = vehicle.make is None;
        let no_model = vehicle.model is None;
        lemma_one(no_year, year, at, "vehicle is missing year"@);
        lemma_one(no_make, make, at, "vehicle is missing make"@);
        lemma_one(no_model, model, at, "vehicle is missing model"@);
        let two = one(no_year, year) + one(no_make, make);
        lemma_lists_concat(
            one(no_year, year),
            |f: Finding| no_year && f == year,
            one(no_make, make),
            |f: Finding| no_make && f == make,
            |f: Finding| (no_year && f == year) || (no_make && f == make),
        );
        lemma_lists_concat(
            two,
            |f: Finding| (no_year && f == year) || (no_make && f == make),
            one(no_model, model),
            |f: Finding| no_model && f == model,
            |f: Finding|
                (no_year && f == year) || (no_make && f == make) || (no_model && f == model),
        );
        lemma_lists_concat(
            vehicles_list(p, vehicles, i),
            |f: Finding| about_vehicles(p, vehicles, i, f),
            two + one(no_model, model),
            |f: Finding|
                (no_year && f == year) || (no_make && f == make) || (no_model && f == model),
            |f: Finding| about_vehicles(p, vehicles, n, f),
        );
        lemma_reported_concat(
            validate::warning(no_year, at, "vehicle is missing year"@),
            one(no_year, year),
            validate::warning(no_make, at, "vehicle is missing make"@),
            one(no_make, make),
        );
        lemma_reported_concat(
            validate::warning(no_year, at, "vehicle is missing year"@) + validate::warning(
                no_make,
                at,
                "vehicle is missing make"@,
            ),
            two,
            validate::warning(no_model, at, "vehicle is missing model"@),
            one(no_model, model),
        );
        lemma_reported_concat(
            validate::vehicles_issues(prospect_path(p), vehicles, i),
            vehicles_list(p, vehicles, i),
            validate::vehicle_issues(at, vehicle),
            two + one(no_model, model),
        );
    }
}

/// The findings about what a prospect itself lacks.
spec fn about_own(p: nat, prospect: ProspectView, f: Finding) -> bool {
    place(f).0 == p && place(f).1 == 0 && true_of(f, prospect)
}

spec fn own_list(p: nat, prospect: ProspectView) -> Seq<Finding> {
    one(prospect.request_date is None, Finding::NoRequestDate { prospect: p }) + one(
        prospect.vehicles.len() == 0,
        Finding::NoVehicle { prospect: p },
    ) + one(prospect.customer is None, Finding::NoCustomer { prospect: p }) + one(
        prospect.vendor is None,
        Finding::NoVendor { prospect: p },
    )
}

spec fn own_issues(path: Seq<char>, prospect: ProspectView) -> Seq<IssueView> {
    validate::warning(prospect.request_date is None, path, "prospect is missing requestdate"@)
        + validate::warning(prospect.vehicles.len() == 0, path, "prospect is missing vehicle"@)
        + validate::warning(prospect.customer is None, path, "prospect is missing customer"@)
        + validate::warning(prospect.vendor is None, path, "prospect is missing vendor"@)
}

proof fn lemma_own(p: nat, prospect: ProspectView)
    ensures
        lists(own_list(p, prospect), |f: Finding| about_own(p, prospect, f)),
        reported(own_issues(prospect_path(p), prospect), own_list(p, prospect)),
{
    let at = prospect_path(p);
    let date = Finding::NoRequestDate { prospect: p };
    let vehicle = Finding::NoVehicle { prospect: p };
    let customer = Finding::NoCustomer { prospect: p };
    let vendor = Finding::NoVendor { prospect: p };
    let no_date = prospect.request_date is None;
    let no_vehicle = prospect.vehicles.len() == 0;
    let no_customer = prospect.customer is None;
    let no_vendor = prospect.vendor is None;
    lemma_one(no_date, date, at, "prospect is missing requestdate"@);
    lemma_one(no_vehicle, vehicle, at, "prospect is missing vehicle"@);
    lemma_one(no_customer, customer, at, "prospect is missing customer"@);
    lemma_one(no_vendor, vendor, at, "prospect is missing vendor"@);
    let two = one(no_date, date) + one(no_vehicle, vehicle);
    let three = two + one(no_customer, customer);
    lemma_lists_concat(
        one(no_date, date),
        |f: Finding| no_date && f == date,
        one(no_vehicle, vehicle),
        |f: Finding| no_vehicle && f == vehicle,
        |f: Finding| (no_date && f == date) || (no_vehicle && f == vehicle),
    );
    lemma_lists_concat(
        two,
        |f: Finding| (no_date && f == date) || (no_vehicle && f == vehicle),
        one(no_customer, customer),
        |f: Finding| no_customer && f == customer,
        |f: Finding|
            (no_date && f == date) || (no_vehicle && f == vehicle) || (no_customer && f == customer),
    );
    lemma_lists_concat(
        three,
        |f: Finding|
            (no_date && f == date) || (no_vehicle && f == vehicle) || (no_customer && f == customer),
        one(no_vendor, vendor),
        |f: Finding| no_vendor && f == vendor,
        |f: Finding| about_own(p, prospect, f),
    );
    let w1 = validate::warning(no_date, at, "prospect is missing requestdate"@);
    let w2 = validate::warning(no_vehicle, at, "prospect is missing vehicle"@);
    let w3 = validate::warning(no_customer, at, "prospect is missing customer"@);
    let w4 = validate::warning(no_vendor, at, "prospect is missing vendor"@);
    lemma_reported_concat(w1, one(no_date, date), w2, one(no_vehicle, vehicle));
    lemma_reported_concat(w1 + w2, two, w3, one(no_customer, customer));
    lemma_reported_concat(w1 + w2 + w3, three, w4, one(no_vendor, vendor));
}

/// The findings about the customer of a prospect.
spec fn about_customer(p: nat, prospect: ProspectView, f: Finding) -> bool {
    place(f).0 == p && (place(f).1 == 1 || place(f).1 == 2) && true_of(f, prospect)
}

spec fn customer_list(p: nat, customer: CustomerView) -> Seq<Finding> {
    one(customer.contacts.len() == 0, Finding::NoContact { prospect: p }) + contacts_list(
        p,
        customer.contacts,
        customer.contacts.len(),
    )
}

proof fn lemma_customer(p: nat, prospect: ProspectView)
    requires
        prospect.customer is Some,
    ensures
        lists(customer_list(p, prospect.customer->0), |f: Finding| about_customer(p, prospect, f)),
        reported(
            validate::customer_issues(prospect_path(p), prospect.customer->0),
            customer_list(p, prospect.customer->0),
        ),
{
    let customer = prospect.customer->0;
    let contacts = customer.contacts;
    let n = contacts.len();
    let contact = Finding::NoContact { prospect: p };
    let at = prospect_path(p) + ".customer"@;
    lemma_one(n == 0, contact, at, "customer is missing contact"@);
    lemma_contacts(p, contacts, n);
    lemma_lists_concat(
        one(n == 0, contact),
        |f: Finding| n == 0 && f == contact,
        contacts_list(p, contacts, n),
        |f: Finding| about_contacts(p, contacts, n, f),
        |f: Finding| about_customer(p, prospect, f),
    );
    lemma_reported_concat(
        validate::warning(n == 0, at, "customer is missing contact"@),
        one(n == 0, contact),
        validate::contacts_issues(prospect_path(p), contacts, n),
        contacts_list(p, contacts, n),
    );
}

/// The findings about a prospect.
spec fn about_prospect(p: nat, prospect: ProspectView, f: Finding) -> bool {
    place(f).0 == p && true_of(f, prospect)
}

spec fn prospect_list(p: nat, prospect: ProspectView) -> Seq<Finding> {
    own_list(p, prospect) + (match prospect.customer {
        Some(customer) => customer_list(p, customer),
        None => seq![],
    }) + (match prospect.vendor {
        Some(vendor) => one(vendor.vendor_name is None, Finding::NoVendorName { prospect: p }),
        None => seq![],
    }) + vehicles_list(p, prospect.vehicles, prospect.vehicles.len())
}

proof fn lemma_none(kind: spec_fn(Finding) -> bool)
    requires
        forall|f: Finding| !#[trigger] kind(f),
    ensures
        lists(seq![], kind),
        reported(seq![], seq![]),
{
    let none = Seq::<Finding>::empty();
    assert forall|f: Finding| #[trigger] none.contains(f) <==> kind(f) by {
        assert(!kind(f));
    }
}

proof fn lemma_prospect(p: nat, prospect: ProspectView)
    ensures
        lists(prospect_list(p, prospect), |f: Finding| about_prospect(p, prospect, f)),
        reported(
            validate::prospect_issues(prospect_path(p), prospect),
            prospect_list(p, prospect),
        ),
{
    let at = prospect_path(p);
    let own = own_list(p, prospect);
    lemma_own(p, prospect);
    let customer = match prospect.customer {
        Some(customer) => customer_list(p, customer),
        None => seq![],
    };
    let customer_issues = match prospect.customer {
        Some(customer) => validate::customer_issues(at, customer),
        None => seq![],
    };
    if prospect.customer is Some {
        lemma_customer(p, prospect);
    } else {
        lemma_none(|f: Finding| about_customer(p, prospect, f));
    }
    let vendor = match prospect.vendor {
        Some(vendor) => one(vendor.vendor_name is None, Finding::NoVendorName { prospect: p }),
        None => seq![],
    };
    let vendor_issues = match prospect.vendor {
        Some(vendor) => validate::vendor_issues(at, vendor),
        None => seq![],
    };
    let nameless = prospect.vendor matches Some(vendor) && vendor.vendor_name is None;
    let name = Finding::NoVendorName { prospect: p };
    lemma_one(nameless, name, at + ".vendor"@, "vendor is missing vendorname"@);
    assert(vendor =~= one(nameless, name));
    assert(vendor_issues =~= validate::warning(
        nameless,
        at + ".vendor"@,
        "vendor is missing vendorname"@,
    ));
    let n = prospect.vehicles.len();
    let vehicles = vehicles_list(p, prospect.vehicles, n);
    lemma_vehicles(p, prospect.vehicles, n);
    lemma_lists_concat(
        own,
        |f: Finding| about_own(p, prospect, f),
        customer,
        |f: Finding| about_customer(p, prospect, f),
        |f: Finding| about_own(p, prospect, f) || about_customer(p, prospect, f),
    );
    lemma_lists_concat(
        own + customer,
        |f: Finding| about_own(p, prospect, f) || about_customer(p, prospect, f),
        vendor,
        |f: Finding| nameless && f == name,
        |f: Finding|
            about_own(p, prospect, f) || about_customer(p, prospect, f) || (nameless && f == name),
    );
    lemma_lists_concat(
        own + customer + vendor,
        |f: Finding|
            about_own(p, prospect, f) || about_customer(p, prospect, f) || (nameless && f == name),
        vehicles,
        |f: Finding| about_vehicles(p, prospect.vehicles, n, f),
        |f: Finding| about_prospect(p, prospect, f),
    );
    let own_issues = own_issues(at, prospect);
    lemma_reported_concat(own_issues, own, customer_issues, customer);
    lemma_reported_concat(own_issues + customer_issues, own + customer, vendor_issues, vendor);
    lemma_reported_concat(
        own_issues + customer_issues + vendor_issues,
        own + customer + vendor,
        validate::vehicles_issues(at, prospect.vehicles, n),
        vehicles,
    );
}

/// The findings about the first prospects.
spec fn about_prospects(prospects: Seq<ProspectView>, n: nat, f: Finding) -> bool {
    0 <= place(f).0 < n && true_of(f, prospects[place(f).0])
}

spec fn prospects_list(prospects: Seq<ProspectView>, n: nat) -> Seq<Finding>
    decreases n,
{
    if n == 0 {
        seq![]
    } else {
        prospects_list(prospects, (n - 1) as nat) + prospect_list((n - 1) as nat, prospects[n - 1])
    }
}

proof fn lemma_prospects(prospects: Seq<ProspectView>, n: nat)
    requires
        n <= prospects.len(),
    ensures
        lists(prospects_list(prospects, n), |f: Finding| about_prospects(prospects, n, f)),
        reported(validate::prospects_issues(prospects, n), prospects_list(prospects, n)),
    decreases n,
{
    if n == 0 {
        lemma_none(|f: Finding| about_prospects(prospects, 0, f));
    } else {
        let i = (n - 1) as nat;
        let prospect = prospects[i as int];
        lemma_prospects(prospects, i);
        lemma_prospect(i, prospect);
        lemma_brackets();
        assert(validate::item_path("adf.prospect"@, i) =~= prospect_path(i));
        lemma_lists_concat(
            prospects_list(prospects, i),
            |f: Finding| about_prospects(prospects, i, f),
            prospect_list(i, prospect),
            |f: Finding| about_prospect(i, prospect, f),
            |f: Finding| about_prospects(prospects, n, f),
        );
        lemma_reported_concat(
            validate::prospects_issues(prospects, i),
            prospects_list(prospects, i),
            validate::prospect_issues(prospect_path(i), prospect),
            prospect_list(i, prospect),
        );
    }
}

/// The report on a document holds an issue for each finding that is true of it, in the
/// order of the findings, and no other issue.
pub proof fn law_report_is_what_is_found(adf: AdfView) -> (findings: Seq<Finding>)
    ensures
        in_order(findings),
        forall|f: Finding| #[trigger] findings.contains(f) <==> holds(adf, f),
        validate::document_issues(adf).len() == findings.len(),
        forall|i: int|
            0 <= i < findings.len() ==> #[trigger] validate::document_issues(adf)[i] == issue(
                findings[i],
            ),
{
    let prospects = adf.prospects;
    let n = prospects.len();
    let rest = prospects_list(prospects, n);
    lemma_prospects(prospects, n);
    let empty = Finding::NoProspect;
    let findings = one(n == 0, empty) + rest;
    assert(lists(one(n == 0, empty), |f: Finding| n == 0 && f == empty)) by {
        let first = one(n == 0, empty);
        assert forall|f: Finding| #[trigger] first.contains(f) <==> n == 0 && f == empty by {
            if n == 0 {
                assert(first[0] == empty);
            }
        }
    }
    lemma_lists_concat(
        one(n == 0, empty),
        |f: Finding| n == 0 && f == empty,
        rest,
        |f: Finding| about_prospects(prospects, n, f),
        |f: Finding| holds(adf, f),
    );
    assert forall|f: Finding| #[trigger] findings.contains(f) <==> holds(adf, f) by {}
    findings
}

/// A number is written in the digits from 0 to 9, with no needless 0 in front, and the
/// digits count up to the number.
pub proof fn law_number_is_written_in_decimal(n: nat)
    ensures
        text::decimal(n).len() > 0,
        forall|i: int|
            0 <= i < text::decimal(n).len() ==> '0' <= #[trigger] text::decimal(n)[i] <= '9',
        text::decimal(n)[0] == '0' <==> n == 0,
        lexical::digits_value(text::decimal(n), 10) == Some(n),
    decreases n,
{
    let digits = text::decimal(n);
    let last = text::digit_char(n % 10);
    assert(last as u32 == 0x30 + n % 10);
    assert(lexical::digit_value(last) == Some(n % 10));
    reveal_with_fuel(lexical::digits_value, 2);
    if n >= 10 {
        law_number_is_written_in_decimal(n / 10);
        assert(digits.drop_last() =~= text::decimal(n / 10));
        assert(digits[0] == text::decimal(n / 10)[0]);
    } else {
        assert(digits.drop_last() =~= Seq::<char>::empty());
        assert(digits[0] == last);
    }
    assert forall|i: int| 0 <= i < digits.len() implies '0' <= #[trigger] digits[i] <= '9' by {
        if i < digits.len() - 1 {
            assert(digits[i] == digits.drop_last()[i]);
        } else {
            assert(digits[i] == last);
        }
    }
}

/// Numbers that are followed by a bracket are equal where the texts are.
proof fn lemma_numbers_are_told_apart(m: nat, a: Seq<char>, n: nat, b: Seq<char>)
    requires
        text::decimal(m) + a == text::decimal(n) + b,
        a.len() > 0 && a[0] == ']',
        b.len() > 0 && b[0] == ']',
    ensures
        m == n,
        a == b,
{
    law_number_is_written_in_decimal(m);
    law_number_is_written_in_decimal(n);
    let x = text::decimal(m);
    let y = text::decimal(n);
    assert((x + a)[x.len() as int] == ']');
    assert((y + b)[y.len() as int] == ']');
    if x.len() < y.len() {
        assert((y + b)[x.len() as int] == y[x.len() as int]);
    }
    if y.len() < x.len() {
        assert((x + a)[y.len() as int] == x[y.len() as int]);
    }
    assert(x =~= (x + a).take(x.len() as int));
    assert(y =~= (y + b).take(y.len() as int));
    assert(a =~= (x + a).skip(x.len() as int));
    assert(b =~= (y + b).skip(y.len() as int));
}

/// Findings whose paths are those of prospects, followed by anything, are of one prospect
/// where the paths are equal.
proof fn lemma_prospect_paths(m: nat, a: Seq<char>, n: nat, b: Seq<char>)
    requires
        prospect_path(m) + a == prospect_path(n) + b,
    ensures
        m == n,
        a == b,
{
    reveal_strlit("]");
    let front = "adf.prospect["@;
    let x = text::decimal(m) + ("]"@ + a);
    let y = text::decimal(n) + ("]"@ + b);
    assert(prospect_path(m) + a =~= front + x);
    assert(prospect_path(n) + b =~= front + y);
    assert(x =~= (front + x).skip(front.len() as int));
    assert(y =~= (front + y).skip(front.len() as int));
    lemma_numbers_are_told_apart(m, "]"@ + a, n, "]"@ + b);
    assert(a =~= ("]"@ + a).skip(1));
    assert(b =~= ("]"@ + b).skip(1));
}

/// The paths of items of a list are of one item where the paths are equal.
proof fn lemma_item_paths(p: nat, m: nat, q: nat, n: nat, list: Seq<char>)
    requires
        prospect_path(p) + list + text::decimal(m) + "]"@ == prospect_path(q) + list
            + text::decimal(n) + "]"@,
    ensures
        p == q,
        m == n,
{
    reveal_strlit("]");
    let a = list + (text::decimal(m) + "]"@);
    let b = list + (text::decimal(n) + "]"@);
    assert(prospect_path(p) + list + text::decimal(m) + "]"@ =~= prospect_path(p) + a);
    assert(prospect_path(q) + list + text::decimal(n) + "]"@ =~= prospect_path(q) + b);
    lemma_prospect_paths(p, a, q, b);
    assert(text::decimal(m) + "]"@ =~= a.skip(list.len() as int));
    assert(text::decimal(n) + "]"@ =~= b.skip(list.len() as int));
    lemma_numbers_are_told_apart(m, "]"@, n, "]"@);
}

/// A number for each kind of finding.
spec fn kind(f: Finding) -> int {
    match f {
        Finding::NoProspect => 0,
        Finding::NoRequestDate { .. } => 1,
        Finding::NoVehicle { .. } => 2,
        Finding::NoCustomer { .. } => 3,
        Finding::NoVendor { .. } => 4,
        Finding::NoContact { .. } => 5,
        Finding::NoName { .. } => 6,
        Finding::NoReach { .. } => 7,
        Finding::NoVendorName { .. } => 8,
        Finding::NoYear { .. } => 9,
        Finding::NoMake { .. } => 10,
        Finding::NoModel { .. } => 11,
    }
}

/// What the message of each kind of finding is told by: its length, its first letter and
/// the first letter of the last word of some.
spec fn mark(f: Finding) -> (nat, char, char) {
    match f {
        Finding::NoProspect => (49, 'A', ' '),
        Finding::NoRequestDate { .. } => (31, 'p', ' '),
        Finding::NoVehicle { .. } => (27, 'p', ' '),
        Finding::NoCustomer { .. } => (28, 'p', ' '),
        Finding::NoVendor { .. } => (26, 'p', ' '),
        Finding::NoContact { .. } => (27, 'c', ' '),
        Finding::NoName { .. } => (23, 'c', 'n'),
        Finding::NoReach { .. } => (37, 'c', 'a'),
        Finding::NoVendorName { .. } => (28, 'v', 'e'),
        Finding::NoYear { .. } => (23, 'v', 'y'),
        Finding::NoMake { .. } => (23, 'v', 'm'),
        Finding::NoModel { .. } => (24, 'v', 'm'),
    }
}

proof fn lemma_mark(f: Finding)
    ensures
        message(f).len() == mark(f).0,
        message(f)[0] == mark(f).1,
        message(f)[19] == mark(f).2,
{
    match f {
        Finding::NoProspect => {
            reveal_strlit("ADF document should contain at least one prospect");
        },
        Finding::NoRequestDate { .. } => {
            reveal_strlit("prospect is missing requestdate");
        },
        Finding::NoVehicle { .. } => {
            reveal_strlit("prospect is missing vehicle");
        },
        Finding::NoCustomer { .. } => {
            reveal_strlit("prospect is missing customer");
        },
        Finding::NoVendor { .. } => {
            reveal_strlit("prospect is missing vendor");
        },
        Finding::NoContact { .. } => {
            reveal_strlit("customer is missing contact");
        },
        Finding::NoName { .. } => {
            reveal_strlit("contact is missing name");
        },
        Finding::NoReach { .. } => {
            reveal_strlit("contact should contain email or phone");
        },
        Finding::NoVendorName { .. } => {
            reveal_strlit("vendor is missing vendorname");
        },
        Finding::NoYear { .. } => {
            reveal_strlit("vehicle is missing year");
        },
        Finding::NoMake { .. } => {
            reveal_strlit("vehicle is missing make");
        },
        Finding::NoModel { .. } => {
            reveal_strlit("vehicle is missing model");
        },
    }
}

proof fn lemma_messages_differ(a: Finding, b: Finding)
    requires
        message(a) == message(b),
    ensures
        kind(a) == kind(b),
{
    lemma_mark(a);
    lemma_mark(b);
    assert(mark(a) == mark(b));
}

/// Findings that are reported alike are one finding.
pub proof fn law_findings_are_told_apart(a: Finding, b: Finding)
    requires
        issue(a) == issue(b),
    ensures
        a == b,
{
    lemma_messages_differ(a, b);
    assert(path(a) == path(b));
    let none = Seq::<char>::empty();
    match a {
        Finding::NoProspect => {},
        Finding::NoRequestDate { prospect } => {
            assert(prospect_path(prospect) + none =~= path(b) + none);
            lemma_prospect_paths(prospect, none, b->NoRequestDate_prospect, none);
        },
        Finding::NoVehicle { prospect } => {
            assert(prospect_path(prospect) + none =~= path(b) + none);
            lemma_prospect_paths(prospect, none, b->NoVehicle_prospect, none);
        },
        Finding::NoCustomer { prospect } => {
            assert(prospect_path(prospect) + none =~= path(b) + none);
            lemma_prospect_paths(prospect, none, b->NoCustomer_prospect, none);
        },
        Finding::NoVendor { prospect } => {
            assert(prospect_path(prospect) + none =~= path(b) + none);
            lemma_prospect_paths(prospect, none, b->NoVendor_prospect, none);
        },
        Finding::NoContact { prospect } => {
            lemma_prospect_paths(prospect, ".customer"@, b->NoContact_prospect, ".customer"@);
        },
        Finding::NoName { prospect, contact } => {
            let (q, n) = (b->NoName_prospect, b->NoName_contact);
            lemma_item_paths(prospect, contact, q, n, ".customer.contact["@);
        },
        Finding::NoReach { prospect, contact } => {
            let (q, n) = (b->NoReach_prospect, b->NoReach_contact);
            lemma_item_paths(prospect, contact, q, n, ".customer.contact["@);
        },
        Finding::NoVendorName { prospect } => {
            lemma_prospect_paths(prospect, ".vendor"@, b->NoVendorName_prospect, ".vendor"@);
        },
        Finding::NoYear { prospect, vehicle } => {
            lemma_item_paths(
                prospect,
                vehicle,
                b->NoYear_prospect,
                b->NoYear_vehicle,
                ".vehicle["@,
            );
        },
        Finding::NoMake { prospect, vehicle } => {
            lemma_item_paths(
                prospect,
                vehicle,
                b->NoMake_prospect,
                b->NoMake_vehicle,
                ".vehicle["@,
            );
        },
        Finding::NoModel { prospect, vehicle } => {
            lemma_item_paths(
                prospect,
                vehicle,
                b->NoModel_prospect,
                b->NoModel_vehicle,
                ".vehicle["@,
            );
        },
    }
}

/// The report on a document holds the issue of a finding exactly where the finding is true
/// of the document, whatever else is found.
pub proof fn law_each_finding_is_reported_on_its_own(adf: AdfView, finding: Finding)
    ensures
        validate::document_issues(adf).contains(issue(finding)) <==> holds(adf, finding),
{
    let issues = validate::document_issues(adf);
    let findings = law_report_is_what_is_found(adf);
    if holds(adf, finding) {
        assert(findings.contains(finding));
        let i = findings.index_of(finding);
        assert(issues[i] == issue(findings[i]));
    }
    if issues.contains(issue(finding)) {
        let i = issues.index_of(issue(finding));
        assert(issues[i] == issue(findings[i]));
        law_findings_are_told_apart(findings[i], finding);
        assert(findings.contains(findings[i]));
    }
}

/// A vehicle without a year, a make or a model is warned of at its place, each on its own,
/// and no other vehicle is.
pub proof fn law_vehicles_are_warned_of(adf: AdfView, prospect: nat, vehicle: nat)
    requires
        prospect < adf.prospects.len(),
        vehicle < adf.prospects[prospect as int].vehicles.len(),
    ensures
        ({
            let at = "adf.prospect["@ + text::decimal(prospect) + "]"@ + ".vehicle["@
                + text::decimal(vehicle) + "]"@;
            let it = adf.prospects[prospect as int].vehicles[vehicle as int];
            let issues = validate::document_issues(adf);
            &&& issues.contains(
                IssueView {
                    severity: Severity::Warning,
                    path: at,
                    message: "vehicle is missing year"@,
                },
            ) <==> it.year is None
            &&& issues.contains(
                IssueView {
                    severity: Severity::Warning,
                    path: at,
                    message: "vehicle is missing make"@,
                },
            ) <==> it.make is None
            &&& issues.contains(
                IssueView {
                    severity: Severity::Warning,
                    path: at,
                    message: "vehicle is missing model"@,
                },
            ) <==> it.model is None
        }),
{
    law_each_finding_is_reported_on_its_own(adf, Finding::NoYear { prospect, vehicle });
    law_each_finding_is_reported_on_its_own(adf, Finding::NoMake { prospect, vehicle });
    law_each_finding_is_reported_on_its_own(adf, Finding::NoModel { prospect, vehicle });
}

/// A contact without a name, or without both an email address and a phone number, is
/// warned of at its place, each on its own, and no other contact is.
pub proof fn law_contacts_are_warned_of(adf: AdfView, prospect: nat, contact: nat)
    requires
        prospect < adf.prospects.len(),
        adf.prospects[prospect as int].customer matches Some(customer) && contact
            < customer.contacts.len(),
    ensures
        ({
            let at = "adf.prospect["@ + text::decimal(prospect) + "]"@ + ".customer.contact["@
                + text::decimal(contact) + "]"@;
            let it = adf.prospects[prospect as int].customer->0.contacts[contact as int];
            let issues = validate::document_issues(adf);
            &&& issues.contains(
                IssueView {
                    severity: Severity::Warning,
                    path: at,
                    message: "contact is missing name"@,
                },
            ) <==> it.names.len() == 0
            &&& issues.contains(
                IssueView {
                    severity: Severity::Warning,
                    path: at,
                    message: "contact should contain email or phone"@,
                },
            ) <==> it.emails.len() == 0 && it.phones.len() == 0
        }),
{
    law_each_finding_is_reported_on_its_own(adf, Finding::NoName { prospect, contact });
    law_each_finding_is_reported_on_its_own(adf, Finding::NoReach { prospect, contact });
}

/// A customer without contacts and a vendor without a name are warned of at their places,
/// whatever else the prospect lacks.
pub proof fn law_customers_and_vendors_are_warned_of(adf: AdfView, prospect: nat)
    requires
        prospect < adf.prospects.len(),
    ensures
        ({
            let at = "adf.prospect["@ + text::decimal(prospect) + "]"@;
            let it = adf.prospects[prospect as int];
            let issues = validate::document_issues(adf);
            &&& issues.contains(
                IssueView {
                    severity: Severity::Warning,
                    path: at + ".customer"@,
                    message: "customer is missing contact"@,
                },
            ) <==> (it.customer matches Some(customer) && customer.contacts.len() == 0)
            &&& issues.contains(
                IssueView {
                    severity: Severity::Warning,
                    path: at + ".vendor"@,
                    message: "vendor is missing vendorname"@,
                },
            ) <==> (it.vendor matches Some(vendor) && vendor.vendor_name is None)
        }),
{
    law_each_finding_is_reported_on_its_own(adf, Finding::NoContact { prospect });
    law_each_finding_is_reported_on_its_own(adf, Finding::NoVendorName { prospect });
}

/// A report is free of errors exactly where the document has a prospect: whatever else is
/// found is a warning.
pub proof fn law_only_a_missing_prospect_is_an_error(adf: AdfView)
    ensures
        adf.prospects.len() > 0 <==> (forall|i: int|
            0 <= i < validate::document_issues(adf).len() ==> (
            #[trigger] validate::document_issues(adf)[i]).severity == Severity::Warning),
        adf.prospects.len() > 0 <==> validate::no_errors(validate::document_issues(adf)),
{
    let issues = validate::document_issues(adf);
    let findings = law_report_is_what_is_found(adf);
    if adf.prospects.len() > 0 {
        assert forall|i: int| 0 <= i < issues.len() implies (#[trigger] issues[i]).severity
            == Severity::Warning by {
            assert(findings.contains(findings[i]));
            assert(holds(adf, findings[i]));
            assert(issues[i] == issue(findings[i]));
        }
    } else {
        assert(holds(adf, Finding::NoProspect));
        assert(findings.contains(Finding::NoProspect));
        let i = findings.index_of(Finding::NoProspect);
        assert(issues[i] == issue(findings[i]));
    }
}

/// A report is valid until an error is put into it, and warnings make no difference.
pub proof fn law_errors_make_a_report_invalid(
    issues: Seq<IssueView>,
    path: Seq<char>,
    message: Seq<char>,
)
    ensures
        validate::no_errors(Seq::<IssueView>::empty()),
        !validate::no_errors(issues.push(IssueView { severity: Severity::Error, path, message })),
        validate::no_errors(issues.push(IssueView { severity: Severity::Warning, path, message }))
            <==> validate::no_errors(issues),
{
    let worse = issues.push(IssueView { severity: Severity::Error, path, message });
    assert(worse[issues.len() as int].severity == Severity::Error);
    let longer = issues.push(IssueView { severity: Severity::Warning, path, message });
    if validate::no_errors(longer) {
        assert forall|i: int| 0 <= i < issues.len() implies (#[trigger] issues[i]).severity
            != Severity::Error by {
            assert(longer[i] == issues[i]);
        }
    }
}

} // verus!
