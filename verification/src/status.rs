use vstd::prelude::*;
use vstd::string::StringExecFns;
use crate::textutil::dec_chars;
use crate::textutil::dec_string;
use crate::textutil::lex_lt;

verus! {

/// Severity of one advisory, ordered from least to most urgent.
#[derive(Debug, Clone, Copy, PartialEq, Eq, Structural)]
pub enum Severity {
    Unknown,
    Low,
    Medium,
    High,
    Critical,
}

/// The position of a severity in the order from least to most urgent.
pub open spec fn spec_rank(s: Severity) -> int {
    match s {
        Severity::Unknown => 0,
        Severity::Low => 1,
        Severity::Medium => 2,
        Severity::High => 3,
        Severity::Critical => 4,
    }
}

/// The label under which a severity is shown, one per severity.
pub open spec fn spec_severity_label(s: Severity) -> Seq<char> {
    match s {
        Severity::Unknown => "Unknown risk"@,
        Severity::Low => "Low risk"@,
        Severity::Medium => "Medium risk"@,
        Severity::High => "High risk"@,
        Severity::Critical => "Critical risk"@,
    }
}

impl Severity {
    /// The position of this severity in the order from least to most urgent.
    pub fn rank(&self) -> (r: u8)
        ensures
            r as int == spec_rank(*self),
    {
        match self {
            Severity::Unknown => 0,
            Severity::Low => 1,
            Severity::Medium => 2,
            Severity::High => 3,
            Severity::Critical => 4,
        }
    }

    /// The label under which this severity is shown.
    pub fn label(&self) -> (r: &'static str)
        ensures
            r@ == spec_severity_label(*self),
    {
        match self {
            Severity::Unknown => "Unknown risk",
            Severity::Low => "Low risk",
            Severity::Medium => "Medium risk",
            Severity::High => "High risk",
            Severity::Critical => "Critical risk",
        }
    }
}

/// Icon selector handed to the front end alongside the status text.
#[derive(Debug, Clone, Copy, PartialEq, Eq, Structural)]
pub enum Icon {
    Check,
    Alert,
    Cross,
}

impl Icon {
    /// The fixed name under which an icon file is looked up.
    pub fn as_str(&self) -> (r: &'static str)
        ensures
            self is Check ==> r@ == "check"@,
            self is Alert ==> r@ == "alert"@,
            self is Cross ==> r@ == "cross"@,
    {
        match self {
            Icon::Check => "check",
            Icon::Alert => "alert",
            Icon::Cross => "cross",
        }
    }

    /// The icon named by `s`: exactly the names that `as_str` hands out are
    /// accepted, anything else is rejected.
    pub fn from_str(s: &str) -> (r: Option<Icon>)
        ensures
            s@ == "check"@ ==> r == Some(Icon::Check),
            s@ == "alert"@ ==> r == Some(Icon::Alert),
            s@ == "cross"@ ==> r == Some(Icon::Cross),
            s@ != "check"@ && s@ != "alert"@ && s@ != "cross"@ ==> r is None,
    {
        proof {
            reveal_strlit("check");
            reveal_strlit("alert");
            reveal_strlit("cross");
            assert("check"@ != "alert"@) by {
                assert("check"@[0] == 'c' && "alert"@[0] == 'a');
            }
            assert("check"@ != "cross"@) by {
                assert("check"@[1] == 'h' && "cross"@[1] == 'r');
            }
            assert("alert"@ != "cross"@) by {
                assert("alert"@[0] == 'a' && "cross"@[0] == 'c');
            }
        }
        let owned = s.to_owned();
        if owned == String::from_str("check") {
            Some(Icon::Check)
        } else if owned == String::from_str("alert") {
            Some(Icon::Alert)
        } else if owned == String::from_str("cross") {
            Some(Icon::Cross)
        } else {
            None
        }
    }
}

/// One pending security update of one installed package.
#[derive(Debug)]
pub struct Update {
    pub severity: Severity,
    pub pkg: String,
    pub text: String,
    pub link: String,
}

/// The mathematical value of an `Update`.
pub ghost struct UpdateView {
    pub severity: Severity,
    pub pkg: Seq<char>,
    pub text: Seq<char>,
    pub link: Seq<char>,
}

impl View for Update {
    type V = UpdateView;

    open spec fn view(&self) -> UpdateView {
        UpdateView {
            severity: self.severity,
            pkg: self.pkg@,
            text: self.text@,
            link: self.link@,
        }
    }
}

/// Presentation order of updates: severity descending, then package name
/// ascending.
pub open spec fn update_lt(a: UpdateView, b: UpdateView) -> bool {
    spec_rank(a.severity) > spec_rank(b.severity)
    || (spec_rank(a.severity) == spec_rank(b.severity) && lex_lt(a.pkg, b.pkg))
}

/// Whether a sequence of updates is in presentation order.
pub open spec fn updates_sorted(s: Seq<UpdateView>) -> bool {
    forall|i: int, j: int| 0 <= i < j < s.len() ==> !update_lt(s[j], s[i])
}

pub proof fn lemma_update_lt_asym(a: UpdateView, b: UpdateView)
    ensures
        !(update_lt(a, b) && update_lt(b, a)),
{
    if update_lt(a, b) && update_lt(b, a) {
        crate::textutil::lemma_lex_lt_trans(a.pkg, b.pkg, a.pkg);
        crate::textutil::lemma_lex_lt_irrefl(a.pkg);
    }
}

pub proof fn lemma_update_le_trans(a: UpdateView, b: UpdateView, c: UpdateView)
    requires
        !update_lt(b, a),
        !update_lt(c, b),
    ensures
        !update_lt(c, a),
{
    if update_lt(c, a) {
        if spec_rank(c.severity) == spec_rank(a.severity) && lex_lt(c.pkg, a.pkg) {
            crate::textutil::lemma_lex_lt_connected(a.pkg, b.pkg);
            if a.pkg == b.pkg {
            } else if lex_lt(a.pkg, b.pkg) {
                crate::textutil::lemma_lex_lt_trans(c.pkg, a.pkg, b.pkg);
            }
        }
    }
}

/// Whether `a` comes strictly before `b` in presentation order.
pub fn update_before(a: &Update, b: &Update) -> (r: bool)
    ensures
        r == update_lt(a@, b@),
{
    let ra = a.severity.rank();
    let rb = b.severity.rank();
    if ra > rb {
        true
    } else if ra == rb {
        crate::textutil::str_lt(a.pkg.as_str(), b.pkg.as_str())
    } else {
        false
    }
}

/// Outcome of one completed check: the pending updates, or one error text.
#[derive(Debug)]
pub enum Status {
    MissingUpdates(Vec<Update>),
    Error(String),
}

/// The status line shown for a check outcome.
pub open spec fn spec_status_text(s: Status) -> Seq<char> {
    match s {
        Status::MissingUpdates(list) => {
            if list@.len() == 0 {
                "No missing security updates"@
            } else if list@.len() == 1 {
                "1 missing security update"@
            } else {
                dec_chars(list@.len() as int) + " missing security updates"@
            }
        },
        Status::Error(err) => "ERROR: "@ + err@,
    }
}

/// The icon shown for a check outcome.
pub open spec fn spec_status_icon(s: Status) -> Icon {
    match s {
        Status::MissingUpdates(list) => {
            if list@.len() == 0 {
                Icon::Check
            } else {
                Icon::Alert
            }
        },
        Status::Error(_) => Icon::Cross,
    }
}

/// Whether a check outcome leaves pending work behind: an error counts as
/// pending, so that an external signal can trigger a retry.
pub open spec fn spec_needs_updates(s: Status) -> bool {
    match s {
        Status::MissingUpdates(list) => list@.len() > 0,
        Status::Error(_) => true,
    }
}

impl Status {
    /// The status line shown for this outcome.
    pub fn text(&self) -> (r: String)
        ensures
            r@ == spec_status_text(*self),
    {
        match self {
            Status::MissingUpdates(list) => {
                let n = list.len();
                if n == 0 {
                    String::from_str("No missing security updates")
                } else if n == 1 {
                    String::from_str("1 missing security update")
                } else {
                    let mut s = dec_string(n as u64);
                    s.append(" missing security updates");
                    s
                }
            },
            Status::Error(err) => {
                let mut s = String::from_str("ERROR: ");
                s.append(err.as_str());
                s
            },
        }
    }

    /// The icon shown for this outcome.
    pub fn icon(&self) -> (r: Icon)
        ensures
            r == spec_status_icon(*self),
    {
        match self {
            Status::MissingUpdates(list) => {
                if list.len() == 0 {
                    Icon::Check
                } else {
                    Icon::Alert
                }
            },
            Status::Error(_) => Icon::Cross,
        }
    }

    /// Whether this outcome leaves pending work behind.
    pub fn needs_updates(&self) -> (r: bool)
        ensures
            r == spec_needs_updates(*self),
    {
        match self {
            Status::MissingUpdates(list) => list.len() > 0,
            Status::Error(_) => true,
        }
    }
}

/// Everything the front end is handed about one completed check: the status
/// line and the icon to show.
pub fn project(s: &Status) -> (r: (String, Icon))
    ensures
        r.0@ == spec_status_text(*s),
        r.1 == spec_status_icon(*s),
{
    (s.text(), s.icon())
}

/// Law: projection is a function of the check outcome alone — equal outcomes
/// are shown as equal text and equal icons.
pub proof fn lemma_project_deterministic(a: Status, b: Status)
    requires
        a == b,
    ensures
        spec_status_text(a) == spec_status_text(b),
        spec_status_icon(a) == spec_status_icon(b),
{
}

} // verus!
