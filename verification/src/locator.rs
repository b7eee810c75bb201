//! The field locator table: a static, ordered catalogue of
//! (group, field, locator) entries describing where each datum lives on the
//! reputation-lookup page. The table is data; one generic resolution routine
//! consumes it.

use vstd::prelude::*;

verus! {

/// How a locator is resolved on the rendered page.
#[derive(Clone, Copy, PartialEq, Eq, Structural, Debug)]
pub enum LocatorKind {
    /// Find the cell with the literal label text, then read the
    /// immediately-following sibling cell.
    LabelSibling,
    /// Find the flag icon and read its enclosing cell: the one deliberate
    /// exception to the label rule, kept as a distinct extraction rule.
    FlagCell,
}

/// Where one extractable datum lives.
pub struct FieldLocator {
    pub group: String,
    pub field: String,
    pub locator: String,
    pub kind: LocatorKind,
}

/// Spec-level image of one locator entry.
pub struct LocatorView {
    pub group: Seq<char>,
    pub field: Seq<char>,
    pub locator: Seq<char>,
    pub kind: LocatorKind,
}

impl View for FieldLocator {
    type V = LocatorView;

    open spec fn view(&self) -> LocatorView {
        LocatorView {
            group: self.group@,
            field: self.field@,
            locator: self.locator@,
            kind: self.kind,
        }
    }
}

pub open spec fn table_view(t: Seq<FieldLocator>) -> Seq<LocatorView> {
    t.map_values(|l: FieldLocator| l@)
}

fn entry(group: &str, field: &str, locator: &str, kind: LocatorKind) -> (e: FieldLocator)
    ensures
        e@ == (LocatorView { group: group@, field: field@, locator: locator@, kind }),
{
    FieldLocator { group: group.to_owned(), field: field.to_owned(), locator: locator.to_owned(), kind }
}

/// The ordered catalogue of extractable fields, groups in display order:
/// location, owner, reputation, email volume, block lists.
///
/// The PBL and SBL entries share one locator pattern keyed only by the
/// shared `spamhaus.org` host substring: the duplication is deliberate and
/// kept as the source mapping defines it rather than silently resolved.
pub fn locator_table() -> (r: Vec<FieldLocator>)
    ensures
        table_view(r@) == spec_locator_table(),
{
    let mut t: Vec<FieldLocator> = Vec::new();
    t.push(entry(
        "LOCATION DATA",
        "Location",
        "//div[@id='location-data-wrapper']//span[@class='flag-icon flag-icon-us']/parent::td",
        LocatorKind::FlagCell,
    ));
    t.push(entry(
        "OWNER DETAILS",
        "IP ADDRESS",
        "//td[text()='IP Address']/following-sibling::td",
        LocatorKind::LabelSibling,
    ));
    t.push(entry(
        "OWNER DETAILS",
        "FWD/REV DNS MATCH",
        "//td[text()='FWD/REV DNS MATCH']/following-sibling::td",
        LocatorKind::LabelSibling,
    ));
    t.push(entry(
        "OWNER DETAILS",
        "HOSTNAME",
        "//td[text()='Hostname']/following-sibling::td",
        LocatorKind::LabelSibling,
    ));
    t.push(entry(
        "OWNER DETAILS",
        "DOMAIN",
        "//td[text()='Domain']/following-sibling::td",
        LocatorKind::LabelSibling,
    ));
    t.push(entry(
        "OWNER DETAILS",
        "NETWORK OWNER",
        "//td[text()='Network Owner']/following-sibling::td",
        LocatorKind::LabelSibling,
    ));
    t.push(entry(
        "REPUTATION DETAILS",
        "SENDER IP REPUTATION",
        "//td[text()='Sender IP Reputation']/following-sibling::td",
        LocatorKind::LabelSibling,
    ));
    t.push(entry(
        "REPUTATION DETAILS",
        "WEB REPUTATION",
        "//td[text()='Web Reputation']/following-sibling::td",
        LocatorKind::LabelSibling,
    ));
    t.push(entry(
        "EMAIL VOLUME DATA",
        "EMAIL VOLUME LAST DAY",
        "//td[text()='Email Volume Last Day']/following-sibling::td",
        LocatorKind::LabelSibling,
    ));
    t.push(entry(
        "EMAIL VOLUME DATA",
        "EMAIL VOLUME LAST MONTH",
        "//td[text()='Email Volume Last Month']/following-sibling::td",
        LocatorKind::LabelSibling,
    ));
    t.push(entry(
        "EMAIL VOLUME DATA",
        "VOLUME CHANGE",
        "//td[text()='Volume Change']/following-sibling::td",
        LocatorKind::LabelSibling,
    ));
    t.push(entry(
        "EMAIL VOLUME DATA",
        "SPAM LEVEL",
        "//td[text()='Spam Level']/following-sibling::td",
        LocatorKind::LabelSibling,
    ));
    t.push(entry(
        "BLOCK LISTS",
        "BL.SPAMCOP.NET",
        "//td[@class='chart-data-label col_left']/a[contains(@href, 'spamcop.net')]/../following-sibling::td",
        LocatorKind::LabelSibling,
    ));
    t.push(entry(
        "BLOCK LISTS",
        "CBL.ABUSEAT.ORG",
        "//td[@class='chart-data-label col_left']/a[contains(@href, 'abuseat.org')]/../following-sibling::td",
        LocatorKind::LabelSibling,
    ));
    t.push(entry(
        "BLOCK LISTS",
        "PBL.SPAMHAUS.ORG",
        "//td[@class='chart-data-label col_left']/a[contains(@href, 'spamhaus.org')]/../following-sibling::td",
        LocatorKind::LabelSibling,
    ));
    t.push(entry(
        "BLOCK LISTS",
        "SBL.SPAMHAUS.ORG",
        "//td[@class='chart-data-label col_left']/a[contains(@href, 'spamhaus.org')]/../following-sibling::td",
        LocatorKind::LabelSibling,
    ));
    t.push(entry(
        "BLOCK LISTS",
        "ADDED TO THE BLOCK LIST",
        "//td[text()='Added to the Block List']/following-sibling::td",
        LocatorKind::LabelSibling,
    ));
    proof {
        assert(table_view(t@) =~= spec_locator_table());
    }
    t
}

/// The same catalogue as a specification value.
pub open spec fn spec_locator_table() -> Seq<LocatorView> {
    seq![
        LocatorView {
            group: "LOCATION DATA"@,
            field: "Location"@,
            locator: "//div[@id='location-data-wrapper']//span[@class='flag-icon flag-icon-us']/parent::td"@,
            kind: LocatorKind::FlagCell,
        },
        LocatorView {
            group: "OWNER DETAILS"@,
            field: "IP ADDRESS"@,
            locator: "//td[text()='IP Address']/following-sibling::td"@,
            kind: LocatorKind::LabelSibling,
        },
        LocatorView {
            group: "OWNER DETAILS"@,
            field: "FWD/REV DNS MATCH"@,
            locator: "//td[text()='FWD/REV DNS MATCH']/following-sibling::td"@,
            kind: LocatorKind::LabelSibling,
        },
        LocatorView {
            group: "OWNER DETAILS"@,
            field: "HOSTNAME"@,
            locator: "//td[text()='Hostname']/following-sibling::td"@,
            kind: LocatorKind::LabelSibling,
        },
        LocatorView {
            group: "OWNER DETAILS"@,
            field: "DOMAIN"@,
            locator: "//td[text()='Domain']/following-sibling::td"@,
            kind: LocatorKind::LabelSibling,
        },
        LocatorView {
            group: "OWNER DETAILS"@,
            field: "NETWORK OWNER"@,
            locator: "//td[text()='Network Owner']/following-sibling::td"@,
            kind: LocatorKind::LabelSibling,
        },
        LocatorView {
            group: "REPUTATION DETAILS"@,
            field: "SENDER IP REPUTATION"@,
            locator: "//td[text()='Sender IP Reputation']/following-sibling::td"@,
            kind: LocatorKind::LabelSibling,
        },
        LocatorView {
            group: "REPUTATION DETAILS"@,
            field: "WEB REPUTATION"@,
            locator: "//td[text()='Web Reputation']/following-sibling::td"@,
            kind: LocatorKind::LabelSibling,
        },
        LocatorView {
            group: "EMAIL VOLUME DATA"@,
            field: "EMAIL VOLUME LAST DAY"@,
            locator: "//td[text()='Email Volume Last Day']/following-sibling::td"@,
            kind: LocatorKind::LabelSibling,
        },
        LocatorView {
            group: "EMAIL VOLUME DATA"@,
            field: "EMAIL VOLUME LAST MONTH"@,
            locator: "//td[text()='Email Volume Last Month']/following-sibling::td"@,
            kind: LocatorKind::LabelSibling,
        },
        LocatorView {
            group: "EMAIL VOLUME DATA"@,
            field: "VOLUME CHANGE"@,
            locator: "//td[text()='Volume Change']/following-sibling::td"@,
            kind: LocatorKind::LabelSibling,
        },
        LocatorView {
            group: "EMAIL VOLUME DATA"@,
            field: "SPAM LEVEL"@,
            locator: "//td[text()='Spam Level']/following-sibling::td"@,
            kind: LocatorKind::LabelSibling,
        },
        LocatorView {
            group: "BLOCK LISTS"@,
            field: "BL.SPAMCOP.NET"@,
            locator: "//td[@class='chart-data-label col_left']/a[contains(@href, 'spamcop.net')]/../following-sibling::td"@,
            kind: LocatorKind::LabelSibling,
        },
        LocatorView {
            group: "BLOCK LISTS"@,
            field: "CBL.ABUSEAT.ORG"@,
            locator: "//td[@class='chart-data-label col_left']/a[contains(@href, 'abuseat.org')]/../following-sibling::td"@,
            kind: LocatorKind::LabelSibling,
        },
        LocatorView {
            group: "BLOCK LISTS"@,
            field: "PBL.SPAMHAUS.ORG"@,
            locator: "//td[@class='chart-data-label col_left']/a[contains(@href, 'spamhaus.org')]/../following-sibling::td"@,
            kind: LocatorKind::LabelSibling,
        },
        LocatorView {
            group: "BLOCK LISTS"@,
            field: "SBL.SPAMHAUS.ORG"@,
            locator: "//td[@class='chart-data-label col_left']/a[contains(@href, 'spamhaus.org')]/../following-sibling::td"@,
            kind: LocatorKind::LabelSibling,
        },
        LocatorView {
            group: "BLOCK LISTS"@,
            field: "ADDED TO THE BLOCK LIST"@,
            locator: "//td[text()='Added to the Block List']/following-sibling::td"@,
            kind: LocatorKind::LabelSibling,
        },
    ]
}

} // verus!
