//! Checks that are specific to ADF, on the typed model.

use crate::model::{
    Adf, AdfView, ContactView, Customer, CustomerView, Prospect, ProspectView, Vehicle,
    VehicleView, Vendor, VendorView,
};
use crate::{document, text};
use std::borrow::Cow;
use vstd::prelude::*;

verus! {

#[derive(Debug, Clone, Copy, PartialEq, Eq, Structural)]
pub enum Severity {
    Warning,
    Error,
}

#[derive(Debug, PartialEq, Eq)]
pub struct ValidationIssue<'a> {
    pub severity: Severity,
    pub path: Cow<'a, str>,
    pub message: Cow<'a, str>,
}

#[derive(Debug, PartialEq, Eq)]
pub struct ValidationReport<'a> {
    pub issues: Vec<ValidationIssue<'a>>,
}

#[verifier::ext_equal]
pub struct IssueView {
    pub severity: Severity,
    pub path: Seq<char>,
    pub message: Seq<char>,
}

impl<'a> View for ValidationIssue<'a> {
    type V = IssueView;

    open spec fn view(&self) -> IssueView {
        IssueView { severity: self.severity, path: self.path@, message: self.message@ }
    }
}

impl<'a> View for ValidationReport<'a> {
    type V = Seq<IssueView>;

    open spec fn view(&self) -> Seq<IssueView> {
        document::views(self.issues@)
    }
}

impl<'a> Clone for ValidationIssue<'a> {
    fn clone(&self) -> (r: Self)
        ensures
            r@ == self@,
    {
        ValidationIssue {
            severity: self.severity,
            path: text::text_clone(&self.path),
            message: text::text_clone(&self.message),
        }
    }
}

impl<'a> Clone for ValidationReport<'a> {
    fn clone(&self) -> (r: Self)
        ensures
            r@ == self@,
    {
        let mut issues: Vec<ValidationIssue<'a>> = Vec::new();
        let mut i: usize = 0;
        assert(document::views(issues@) =~= document::views(self.issues@.take(0)));
        while i < self.issues.len()
            invariant
                i <= self.issues@.len(),
                document::views(issues@) == document::views(self.issues@.take(i as int)),
            decreases self.issues@.len() - i,
        {
            proof {
                document::lemma_take_next(self.issues@, i as int);
                broadcast use document::lemma_views_push;

            }
            issues.push(self.issues[i].clone());
            i += 1;
        }
        assert(self.issues@.take(i as int) =~= self.issues@);
        ValidationReport { issues }
    }
}

impl<'a> Default for ValidationReport<'a> {
    fn default() -> (r: Self)
        ensures
            r@ == Seq::<IssueView>::empty(),
    {
        let report = ValidationReport { issues: Vec::new() };
        assert(report@ =~= Seq::<IssueView>::empty());
        report
    }
}

/// No issue is an error.
pub open spec fn no_errors(issues: Seq<IssueView>) -> bool {
    forall|i: int| 0 <= i < issues.len() ==> (#[trigger] issues[i]).severity != Severity::Error
}

impl<'a> ValidationReport<'a> {
    /// Whether the report holds no error. Warnings do not count.
    pub fn is_valid(&self) -> (r: bool)
        ensures
            r == no_errors(self@),
    {
        let mut i: usize = 0;
        while i < self.issues.len()
            invariant
                i <= self.issues@.len(),
                forall|j: int| 0 <= j < i ==> (#[trigger] self@[j]).severity != Severity::Error,
            decreases self.issues@.len() - i,
        {
            assert(self@[i as int].severity == self.issues@[i as int].severity);
            if self.issues[i].severity == Severity::Error {
                return false;
            }
            i += 1;
        }
        true
    }

    /// Adds a warning.
    pub fn warn(&mut self, path: Cow<'a, str>, message: Cow<'a, str>)
        ensures
            final(self)@ == old(self)@.push(
                IssueView { severity: Severity::Warning, path: path@, message: message@ },
            ),
    {
        proof {
            broadcast use document::lemma_views_push;

        }
        self.issues.push(ValidationIssue { severity: Severity::Warning, path, message });
    }

    /// Adds an error.
    pub fn error(&mut self, path: Cow<'a, str>, message: Cow<'a, str>)
        ensures
            final(self)@ == old(self)@.push(
                IssueView { severity: Severity::Error, path: path@, message: message@ },
            ),
    {
        proof {
            broadcast use document::lemma_views_push;

        }
        self.issues.push(ValidationIssue { severity: Severity::Error, path, message });
    }

    /// Adds a warning where something is amiss.
    fn warn_if(&mut self, amiss: bool, path: &str, message: &'static str)
        ensures
            final(self)@ == old(self)@ + warning(amiss, path@, message@),
    {
        if amiss {
            self.warn(Cow::Owned(path.to_owned()), Cow::Borrowed(message));
        }
        assert(self@ =~= old(self)@ + warning(amiss, path@, message@));
    }
}

/// The warning about something that may be amiss.
pub open spec fn warning(amiss: bool, path: Seq<char>, message: Seq<char>) -> Seq<IssueView> {
    if amiss {
        seq![IssueView { severity: Severity::Warning, path, message }]
    } else {
        seq![]
    }
}

/// The path of an item of a list.
pub open spec fn item_path(list: Seq<char>, index: nat) -> Seq<char> {
    list + "["@ + text::decimal(index) + "]"@
}

/// The path of an item of a list.
fn indexed_path(parent: &str, list: &str, index: usize) -> (r: String)
    ensures
        r@ == item_path(parent@ + list@, index as nat),
{
    let mut path = parent.to_owned();
    path.append(list);
    path.append("[");
    text::push_decimal(&mut path, index);
    path.append("]");
    path
}

/// The issues of a contact of a customer.
pub open spec fn contact_issues(path: Seq<char>, contact: ContactView) -> Seq<IssueView> {
    warning(contact.names.len() == 0, path, "contact is missing name"@) + warning(
        contact.emails.len() == 0 && contact.phones.len() == 0,
        path,
        "contact should contain email or phone"@,
    )
}

/// The issues of the first `n` contacts of a customer.
pub open spec fn contacts_issues(
    prospect_path: Seq<char>,
    contacts: Seq<ContactView>,
    n: nat,
) -> Seq<IssueView>
    decreases n,
{
    if n == 0 {
        seq![]
    } else {
        contacts_issues(prospect_path, contacts, (n - 1) as nat) + contact_issues(
            item_path(prospect_path + ".customer.contact"@, (n - 1) as nat),
            contacts[n - 1],
        )
    }
}

/// The issues of a customer.
pub open spec fn customer_issues(prospect_path: Seq<char>, customer: CustomerView) -> Seq<
    IssueView,
> {
    warning(
        customer.contacts.len() == 0,
        prospect_path + ".customer"@,
        "customer is missing contact"@,
    ) + contacts_issues(prospect_path, customer.contacts, customer.contacts.len())
}

/// The issues of a vendor.
pub open spec fn vendor_issues(prospect_path: Seq<char>, vendor: VendorView) -> Seq<IssueView> {
    warning(
        vendor.vendor_name is None,
        prospect_path + ".vendor"@,
        "vendor is missing vendorname"@,
    )
}

/// The issues of a vehicle.
pub open spec fn vehicle_issues(path: Seq<char>, vehicle: VehicleView) -> Seq<IssueView> {
    warning(vehicle.year is None, path, "vehicle is missing year"@) + warning(
        vehicle.make is None,
        path,
        "vehicle is missing make"@,
    ) + warning(vehicle.model is None, path, "vehicle is missing model"@)
}

/// The issues of the first `n` vehicles of a prospect.
pub open spec fn vehicles_issues(
    prospect_path: Seq<char>,
    vehicles: Seq<VehicleView>,
    n: nat,
) -> Seq<IssueView>
    decreases n,
{
    if n == 0 {
        seq![]
    } else {
        vehicles_issues(prospect_path, vehicles, (n - 1) as nat) + vehicle_issues(
            item_path(prospect_path + ".vehicle"@, (n - 1) as nat),
            vehicles[n - 1],
        )
    }
}

/// The issues of a prospect: what it lacks, then those of its customer, its vendor
/// and its vehicles.
pub open spec fn prospect_issues(path: Seq<char>, prospect: ProspectView) -> Seq<IssueView> {
    warning(prospect.request_date is None, path, "prospect is missing requestdate"@) + warning(
        prospect.vehicles.len() == 0,
        path,
        "prospect is missing vehicle"@,
    ) + warning(prospect.customer is None, path, "prospect is missing customer"@) + warning(
        prospect.vendor is None,
        path,
        "prospect is missing vendor"@,
    ) + (match prospect.customer {
        Some(customer) => customer_issues(path, customer),
        None => seq![],
    }) + (match prospect.vendor {
        Some(vendor) => vendor_issues(path, vendor),
        None => seq![],
    }) + vehicles_issues(path, prospect.vehicles, prospect.vehicles.len())
}

/// The issues of the first `n` prospects.
pub open spec fn prospects_issues(prospects: Seq<ProspectView>, n: nat) -> Seq<IssueView>
    decreases n,
{
    if n == 0 {
        seq![]
    } else {
        prospects_issues(prospects, (n - 1) as nat) + prospect_issues(
            item_path("adf.prospect"@, (n - 1) as nat),
            prospects[n - 1],
        )
    }
}

/// The issues of a document: an error if it has no prospect, and those of its
/// prospects.
pub open spec fn document_issues(adf: AdfView) -> Seq<IssueView> {
    (if adf.prospects.len() == 0 {
        seq![
            IssueView {
                severity: Severity::Error,
                path: "adf"@,
                message: "ADF document should contain at least one prospect"@,
            },
        ]
    } else {
        seq![]
    }) + prospects_issues(adf.prospects, adf.prospects.len())
}

/// Adds the issues of a customer.
pub fn validate_customer<'a>(
    report: &mut ValidationReport<'a>,
    prospect_path: &str,
    customer: &Customer<'_>,
)
    ensures
        final(report)@ == old(report)@ + customer_issues(prospect_path@, customer@),
{
    let mut customer_path = prospect_path.to_owned();
    customer_path.append(".customer");
    report.warn_if(
        customer.contacts.is_empty(),
        customer_path.as_str(),
        "customer is missing contact",
    );
    let ghost before = report@;
    let ghost contacts = customer@.contacts;
    let mut i: usize = 0;
    while i < customer.contacts.len()
        invariant
            i <= customer.contacts@.len(),
            contacts == document::views(customer.contacts@),
            report@ =~= before + contacts_issues(prospect_path@, contacts, i as nat),
        decreases customer.contacts@.len() - i,
    {
        let contact = &customer.contacts[i];
        assert(contacts[i as int] == contact@);
        let path = indexed_path(prospect_path, ".customer.contact", i);
        report.warn_if(contact.names.is_empty(), path.as_str(), "contact is missing name");
        report.warn_if(
            contact.emails.is_empty() && contact.phones.is_empty(),
            path.as_str(),
            "contact should contain email or phone",
        );
        i += 1;
    }
    assert(report@ =~= old(report)@ + customer_issues(prospect_path@, customer@));
}

/// Adds the issues of a vendor.
pub fn validate_vendor<'a>(
    report: &mut ValidationReport<'a>,
    prospect_path: &str,
    vendor: &Vendor<'_>,
)
    ensures
        final(report)@ == old(report)@ + vendor_issues(prospect_path@, vendor@),
{
    let mut path = prospect_path.to_owned();
    path.append(".vendor");
    report.warn_if(vendor.vendor_name.is_none(), path.as_str(), "vendor is missing vendorname");
}

/// Adds the issues of a vehicle.
pub fn validate_vehicle<'a>(report: &mut ValidationReport<'a>, path: &str, vehicle: &Vehicle<'_>)
    ensures
        final(report)@ == old(report)@ + vehicle_issues(path@, vehicle@),
{
    report.warn_if(vehicle.year.is_none(), path, "vehicle is missing year");
    report.warn_if(vehicle.make.is_none(), path, "vehicle is missing make");
    report.warn_if(vehicle.model.is_none(), path, "vehicle is missing model");
    assert(report@ =~= old(report)@ + vehicle_issues(path@, vehicle@));
}

/// Adds the issues of the vehicles of a prospect.
fn validate_vehicles<'a>(
    report: &mut ValidationReport<'a>,
    prospect_path: &str,
    vehicles: &Vec<Vehicle<'_>>,
)
    ensures
        final(report)@ == old(report)@ + vehicles_issues(
            prospect_path@,
            document::views(vehicles@),
            vehicles@.len(),
        ),
{
    let ghost before = report@;
    let ghost models = document::views(vehicles@);
    let mut i: usize = 0;
    while i < vehicles.len()
        invariant
            i <= vehicles@.len(),
            models == document::views(vehicles@),
            report@ =~= before + vehicles_issues(prospect_path@, models, i as nat),
        decreases vehicles@.len() - i,
    {
        assert(models[i as int] == vehicles@[i as int]@);
        let path = indexed_path(prospect_path, ".vehicle", i);
        validate_vehicle(report, path.as_str(), &vehicles[i]);
        i += 1;
    }
}

proof fn lemma_concat(a: Seq<IssueView>, b: Seq<IssueView>, c: Seq<IssueView>)
    ensures
        a + b + c == a + (b + c),
{
    assert(a + b + c =~= a + (b + c));
}

/// Adds the issues of a prospect.
fn validate_prospect<'a>(report: &mut ValidationReport<'a>, path: &str, prospect: &Prospect<'_>)
    ensures
        final(report)@ == old(report)@ + prospect_issues(path@, prospect@),
{
    let ghost before = report@;
    let ghost model = prospect@;
    let ghost date = warning(model.request_date is None, path@, "prospect is missing requestdate"@);
    let ghost vehicle = warning(
        model.vehicles.len() == 0,
        path@,
        "prospect is missing vehicle"@,
    );
    let ghost customer = warning(model.customer is None, path@, "prospect is missing customer"@);
    let ghost vendor = warning(model.vendor is None, path@, "prospect is missing vendor"@);
    let ghost customers = match model.customer {
        Some(customer) => customer_issues(path@, customer),
        None => seq![],
    };
    let ghost vendors = match model.vendor {
        Some(vendor) => vendor_issues(path@, vendor),
        None => seq![],
    };
    let ghost vehicles = vehicles_issues(path@, model.vehicles, model.vehicles.len());
    report.warn_if(prospect.request_date.is_none(), path, "prospect is missing requestdate");
    report.warn_if(prospect.vehicles.is_empty(), path, "prospect is missing vehicle");
    report.warn_if(prospect.customer.is_none(), path, "prospect is missing customer");
    report.warn_if(prospect.vendor.is_none(), path, "prospect is missing vendor");
    let ghost lacks = before + date + vehicle + customer + vendor;
    assert(report@ == lacks);
    if let Some(customer) = &prospect.customer {
        validate_customer(report, path, customer);
    }
    assert(report@ == lacks + customers) by {
        if model.customer is None {
            assert(lacks + customers =~= lacks);
        }
    }
    if let Some(vendor) = &prospect.vendor {
        validate_vendor(report, path, vendor);
    }
    assert(report@ == lacks + customers + vendors) by {
        if model.vendor is None {
            assert(lacks + customers + vendors =~= lacks + customers);
        }
    }
    validate_vehicles(report, path, &prospect.vehicles);
    proof {
        lemma_concat(before, date, vehicle);
        lemma_concat(before, date + vehicle, customer);
        lemma_concat(before, date + vehicle + customer, vendor);
        lemma_concat(before, date + vehicle + customer + vendor, customers);
        lemma_concat(before, date + vehicle + customer + vendor + customers, vendors);
        lemma_concat(before, date + vehicle + customer + vendor + customers + vendors, vehicles);
    }
}

/// The path of the list of prospects.
proof fn lemma_prospects_path()
    ensures
        "adf"@ + ".prospect"@ == "adf.prospect"@,
{
    reveal_strlit("adf");
    reveal_strlit(".prospect");
    reveal_strlit("adf.prospect");
    assert("adf"@ + ".prospect"@ =~= "adf.prospect"@);
}

/// The issues of one more prospect.
proof fn lemma_prospects_next(before: Seq<IssueView>, prospects: Seq<ProspectView>, n: nat)
    ensures
        before + prospects_issues(prospects, n) + prospect_issues(
            item_path("adf.prospect"@, n),
            prospects[n as int],
        ) == before + prospects_issues(prospects, n + 1),
{
    lemma_concat(
        before,
        prospects_issues(prospects, n),
        prospect_issues(item_path("adf.prospect"@, n), prospects[n as int]),
    );
}

/// Adds the issues of the prospects of a document.
fn validate_prospects<'a>(report: &mut ValidationReport<'a>, prospects: &Vec<Prospect<'_>>)
    ensures
        final(report)@ == old(report)@ + prospects_issues(
            document::views(prospects@),
            prospects@.len(),
        ),
{
    let ghost before = report@;
    let ghost models = document::views(prospects@);
    proof {
        lemma_prospects_path();
    }
    assert(before + prospects_issues(models, 0) =~= before);
    let mut index: usize = 0;
    while index < prospects.len()
        invariant
            index <= prospects@.len(),
            models == document::views(prospects@),
            "adf"@ + ".prospect"@ == "adf.prospect"@,
            report@ == before + prospects_issues(models, index as nat),
        decreases prospects@.len() - index,
    {
        let path = indexed_path("adf", ".prospect", index);
        validate_prospect(report, path.as_str(), &prospects[index]);
        proof {
            assert(models[index as int] == prospects@[index as int]@);
            lemma_prospects_next(before, models, index as nat);
        }
        index += 1;
    }
}

/// Checks a document.
pub fn validate<'a>(adf: &Adf<'a>) -> (r: ValidationReport<'a>)
    ensures
        r@ == document_issues(adf@),
{
    let mut report = ValidationReport::default();
    if adf.prospects.is_empty() {
        report.error(
            Cow::Borrowed("adf"),
            Cow::Borrowed("ADF document should contain at least one prospect"),
        );
    }
    validate_prospects(&mut report, &adf.prospects);
    assert(report@ =~= document_issues(adf@));
    report
}

/// There is no error in two lists of issues if there is none in either.
proof fn lemma_no_errors_concat(a: Seq<IssueView>, b: Seq<IssueView>)
    ensures
        no_errors(a + b) <==> no_errors(a) && no_errors(b),
{
    if no_errors(a + b) {
        assert forall|i: int| 0 <= i < a.len() implies (#[trigger] a[i]).severity
            != Severity::Error by {
            assert((a + b)[i] == a[i]);
        }
        assert forall|i: int| 0 <= i < b.len() implies (#[trigger] b[i]).severity
            != Severity::Error by {
            assert((a + b)[i + a.len()] == b[i]);
        }
    }
}

proof fn lemma_contacts_no_errors(path: Seq<char>, contacts: Seq<ContactView>, n: nat)
    ensures
        no_errors(contacts_issues(path, contacts, n)),
    decreases n,
{
    if n > 0 {
        lemma_contacts_no_errors(path, contacts, (n - 1) as nat);
        lemma_no_errors_concat(
            contacts_issues(path, contacts, (n - 1) as nat),
            contact_issues(
                item_path(path + ".customer.contact"@, (n - 1) as nat),
                contacts[n - 1],
            ),
        );
    }
}

proof fn lemma_vehicles_no_errors(path: Seq<char>, vehicles: Seq<VehicleView>, n: nat)
    ensures
        no_errors(vehicles_issues(path, vehicles, n)),
    decreases n,
{
    if n > 0 {
        lemma_vehicles_no_errors(path, vehicles, (n - 1) as nat);
        lemma_no_errors_concat(
            vehicles_issues(path, vehicles, (n - 1) as nat),
            vehicle_issues(item_path(path + ".vehicle"@, (n - 1) as nat), vehicles[n - 1]),
        );
    }
}

proof fn lemma_prospect_no_errors(path: Seq<char>, prospect: ProspectView)
    ensures
        no_errors(prospect_issues(path, prospect)),
{
    let own = warning(prospect.request_date is None, path, "prospect is missing requestdate"@)
        + warning(prospect.vehicles.len() == 0, path, "prospect is missing vehicle"@) + warning(
        prospect.customer is None,
        path,
        "prospect is missing customer"@,
    ) + warning(prospect.vendor is None, path, "prospect is missing vendor"@);
    let customer = match prospect.customer {
        Some(customer) => customer_issues(path, customer),
        None => seq![],
    };
    let vendor = match prospect.vendor {
        Some(vendor) => vendor_issues(path, vendor),
        None => seq![],
    };
    let vehicles = vehicles_issues(path, prospect.vehicles, prospect.vehicles.len());
    if let Some(c) = prospect.customer {
        lemma_contacts_no_errors(path, c.contacts, c.contacts.len());
        lemma_no_errors_concat(
            warning(c.contacts.len() == 0, path + ".customer"@, "customer is missing contact"@),
            contacts_issues(path, c.contacts, c.contacts.len()),
        );
    }
    lemma_vehicles_no_errors(path, prospect.vehicles, prospect.vehicles.len());
    lemma_no_errors_concat(own, customer);
    lemma_no_errors_concat(own + customer, vendor);
    lemma_no_errors_concat(own + customer + vendor, vehicles);
}

proof fn lemma_prospects_no_errors(prospects: Seq<ProspectView>, n: nat)
    ensures
        no_errors(prospects_issues(prospects, n)),
    decreases n,
{
    if n > 0 {
        lemma_prospects_no_errors(prospects, (n - 1) as nat);
        let path = item_path("adf.prospect"@, (n - 1) as nat);
        lemma_prospect_no_errors(path, prospects[n - 1]);
        lemma_no_errors_concat(
            prospects_issues(prospects, (n - 1) as nat),
            prospect_issues(path, prospects[n - 1]),
        );
    }
}

/// A document is valid if and only if it has a prospect: whatever else is amiss is a
/// warning.
pub proof fn law_valid_iff_prospect(adf: AdfView)
    ensures
        no_errors(document_issues(adf)) <==> adf.prospects.len() > 0,
{
    let issues = document_issues(adf);
    lemma_prospects_no_errors(adf.prospects, adf.prospects.len());
    if adf.prospects.len() == 0 {
        assert(issues[0].severity == Severity::Error);
    } else {
        assert(issues =~= prospects_issues(adf.prospects, adf.prospects.len()));
    }
}

/// A contact has a name, and an email address or a phone number.
pub open spec fn complete_contact(contact: ContactView) -> bool {
    contact.names.len() > 0 && (contact.emails.len() > 0 || contact.phones.len() > 0)
}

/// A customer has contacts, and all of them are complete.
pub open spec fn complete_customer(customer: CustomerView) -> bool {
    &&& customer.contacts.len() > 0
    &&& forall|i: int|
        0 <= i < customer.contacts.len() ==> complete_contact(#[trigger] customer.contacts[i])
}

/// A vehicle has a year, a make and a model.
pub open spec fn complete_vehicle(vehicle: VehicleView) -> bool {
    vehicle.year is Some && vehicle.make is Some && vehicle.model is Some
}

/// A prospect has all that a lead consists of.
pub open spec fn complete_prospect(prospect: ProspectView) -> bool {
    &&& prospect.request_date is Some
    &&& prospect.customer matches Some(customer) && complete_customer(customer)
    &&& prospect.vendor matches Some(vendor) && vendor.vendor_name is Some
    &&& prospect.vehicles.len() > 0
    &&& forall|i: int|
        0 <= i < prospect.vehicles.len() ==> complete_vehicle(#[trigger] prospect.vehicles[i])
}

proof fn lemma_contacts_complete(path: Seq<char>, contacts: Seq<ContactView>, n: nat)
    requires
        n <= contacts.len(),
    ensures
        contacts_issues(path, contacts, n).len() == 0 <==> forall|i: int|
            0 <= i < n ==> complete_contact(#[trigger] contacts[i]),
    decreases n,
{
    if n > 0 {
        lemma_contacts_complete(path, contacts, (n - 1) as nat);
        let last = contacts[n - 1];
        let issues = contact_issues(
            item_path(path + ".customer.contact"@, (n - 1) as nat),
            last,
        );
        assert(issues.len() == 0 <==> complete_contact(last));
        assert(contacts_issues(path, contacts, n).len() == contacts_issues(
            path,
            contacts,
            (n - 1) as nat,
        ).len() + issues.len());
    }
}

proof fn lemma_vehicles_complete(path: Seq<char>, vehicles: Seq<VehicleView>, n: nat)
    requires
        n <= vehicles.len(),
    ensures
        vehicles_issues(path, vehicles, n).len() == 0 <==> forall|i: int|
            0 <= i < n ==> complete_vehicle(#[trigger] vehicles[i]),
    decreases n,
{
    if n > 0 {
        lemma_vehicles_complete(path, vehicles, (n - 1) as nat);
        let last = vehicles[n - 1];
        let issues = vehicle_issues(item_path(path + ".vehicle"@, (n - 1) as nat), last);
        assert(issues.len() == 0 <==> complete_vehicle(last));
        assert(vehicles_issues(path, vehicles, n).len() == vehicles_issues(
            path,
            vehicles,
            (n - 1) as nat,
        ).len() + issues.len());
    }
}

proof fn lemma_prospect_complete(path: Seq<char>, prospect: ProspectView)
    ensures
        prospect_issues(path, prospect).len() == 0 <==> complete_prospect(prospect),
{
    if let Some(customer) = prospect.customer {
        lemma_contacts_complete(path, customer.contacts, customer.contacts.len());
    }
    lemma_vehicles_complete(path, prospect.vehicles, prospect.vehicles.len());
}

proof fn lemma_prospects_complete(prospects: Seq<ProspectView>, n: nat)
    requires
        n <= prospects.len(),
    ensures
        prospects_issues(prospects, n).len() == 0 <==> forall|i: int|
            0 <= i < n ==> complete_prospect(#[trigger] prospects[i]),
    decreases n,
{
    if n > 0 {
        lemma_prospects_complete(prospects, (n - 1) as nat);
        let path = item_path("adf.prospect"@, (n - 1) as nat);
        lemma_prospect_complete(path, prospects[n - 1]);
        assert(prospects_issues(prospects, n).len() == prospects_issues(
            prospects,
            (n - 1) as nat,
        ).len() + prospect_issues(path, prospects[n - 1]).len());
    }
}

/// A document has no issue at all if and only if it has prospects and all of them are
/// complete.
pub proof fn law_no_issue_iff_complete(adf: AdfView)
    ensures
        document_issues(adf).len() == 0 <==> {
            &&& adf.prospects.len() > 0
            &&& forall|i: int|
                0 <= i < adf.prospects.len() ==> complete_prospect(#[trigger] adf.prospects[i])
        },
{
    lemma_prospects_complete(adf.prospects, adf.prospects.len());
}

} // verus!
