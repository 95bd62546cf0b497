use vstd::prelude::*;
use vstd::string::StringExecFns;
use crate::status::Severity;
use crate::textutil::push_char;

verus! {

// The audit command reports its findings as one document in a JSON-like
// form: an array of advisory records, each an object whose fields are
// `severity` (one of the severity names), `kind` and `name` (strings) and
// `packages` (an array of strings). Other fields are tolerated and skipped
// when their value is a string, an array of strings, a number, or one of the
// words `null`, `true`, `false`. Anything else deviates from the schema and
// the whole document is rejected. The grammar below is stated as spec
// functions over the raw bytes, and each parsing function returns exactly
// what its spec function denotes.

/// Bytes that may separate tokens of the document.
pub open spec fn is_json_ws(c: u8) -> bool {
    c == 0x20 || c == 0x09 || c == 0x0a || c == 0x0d
}

/// The first position at or after `i` that does not hold whitespace.
pub open spec fn spec_skip_ws(s: Seq<u8>, i: int) -> int
    decreases s.len() - i,
{
    if 0 <= i < s.len() && is_json_ws(s[i]) {
        spec_skip_ws(s, i + 1)
    } else {
        i
    }
}

pub proof fn lemma_skip_ws_bounds(s: Seq<u8>, i: int)
    requires
        0 <= i <= s.len(),
    ensures
        i <= spec_skip_ws(s, i) <= s.len(),
    decreases s.len() - i,
{
    if i < s.len() && is_json_ws(s[i]) {
        lemma_skip_ws_bounds(s, i + 1);
    }
}

fn skip_ws(b: &[u8], i: usize) -> (r: usize)
    requires
        i <= b@.len(),
    ensures
        r as int == spec_skip_ws(b@, i as int),
        i <= r <= b@.len(),
    decreases b@.len() - i,
{
    if i < b.len() {
        let c = b[i];
        if c == 0x20 || c == 0x09 || c == 0x0a || c == 0x0d {
            skip_ws(b, i + 1)
        } else {
            i
        }
    } else {
        i
    }
}

/// The character that one escape letter stands for, for the escapes the
/// grammar accepts.
pub open spec fn spec_escape(c: u8) -> Option<char> {
    if c == 0x22 {
        Some('"')
    } else if c == 0x5c {
        Some('\\')
    } else if c == 0x2f {
        Some('/')
    } else if c == 0x62 {
        Some('\u{0008}')
    } else if c == 0x66 {
        Some('\u{000C}')
    } else if c == 0x6e {
        Some('\n')
    } else if c == 0x72 {
        Some('\r')
    } else if c == 0x74 {
        Some('\t')
    } else {
        None
    }
}

fn escape_char(c: u8) -> (r: Option<char>)
    ensures
        r == spec_escape(c),
{
    match c {
        0x22 => Some('"'),
        0x5c => Some('\\'),
        0x2f => Some('/'),
        0x62 => Some('\u{0008}'),
        0x66 => Some('\u{000C}'),
        0x6e => Some('\n'),
        0x72 => Some('\r'),
        0x74 => Some('\t'),
        _ => None,
    }
}

/// The rest of a quoted string, starting inside the quotes with the
/// characters seen so far: the collected characters and the position after
/// the closing quote.
pub open spec fn spec_string_body(s: Seq<u8>, i: int, acc: Seq<char>) -> Option<(Seq<char>, int)>
    decreases s.len() - i,
{
    if !(0 <= i < s.len()) {
        None
    } else {
        let c = s[i];
        if c == 0x22 {
            Some((acc, i + 1))
        } else if c == 0x5c {
            if i + 1 < s.len() {
                match spec_escape(s[i + 1]) {
                    Some(e) => spec_string_body(s, i + 2, acc.push(e)),
                    None => None,
                }
            } else {
                None
            }
        } else if 0x20 <= c <= 0x7e {
            spec_string_body(s, i + 1, acc.push(c as char))
        } else {
            None
        }
    }
}

pub proof fn lemma_string_body_bounds(s: Seq<u8>, i: int, acc: Seq<char>)
    ensures
        spec_string_body(s, i, acc) matches Some(p) ==> i < p.1 <= s.len(),
    decreases s.len() - i,
{
    if 0 <= i < s.len() {
        let c = s[i];
        if c == 0x5c && i + 1 < s.len() && spec_escape(s[i + 1]) is Some {
            lemma_string_body_bounds(s, i + 2, acc.push(spec_escape(s[i + 1]).unwrap()));
        } else if c != 0x22 && c != 0x5c && 0x20 <= c <= 0x7e {
            lemma_string_body_bounds(s, i + 1, acc.push(c as char));
        }
    }
}

/// A quoted string at `i`: its characters and the position after the closing
/// quote.
pub open spec fn spec_string(s: Seq<u8>, i: int) -> Option<(Seq<char>, int)> {
    if 0 <= i < s.len() && s[i] == 0x22 {
        spec_string_body(s, i + 1, Seq::empty())
    } else {
        None
    }
}

pub proof fn lemma_string_bounds(s: Seq<u8>, i: int)
    ensures
        spec_string(s, i) matches Some(p) ==> i < p.1 <= s.len(),
{
    if 0 <= i < s.len() && s[i] == 0x22 {
        lemma_string_body_bounds(s, i + 1, Seq::empty());
    }
}

fn string_body(b: &[u8], i: usize, acc: String) -> (r: Option<(String, usize)>)
    requires
        i <= b@.len(),
    ensures
        r matches Some(p) ==> spec_string_body(b@, i as int, acc@) == Some((p.0@, p.1 as int))
            && i < p.1 <= b@.len(),
        r is None ==> spec_string_body(b@, i as int, acc@) is None,
    decreases b@.len() - i,
{
    if i >= b.len() {
        None
    } else {
        let c = b[i];
        if c == 0x22 {
            Some((acc, i + 1))
        } else if c == 0x5c {
            if i + 1 < b.len() {
                match escape_char(b[i + 1]) {
                    Some(e) => {
                        let mut acc = acc;
                        push_char(&mut acc, e);
                        string_body(b, i + 2, acc)
                    },
                    None => None,
                }
            } else {
                None
            }
        } else if 0x20 <= c && c <= 0x7e {
            let mut acc = acc;
            push_char(&mut acc, c as char);
            string_body(b, i + 1, acc)
        } else {
            None
        }
    }
}

/// Parse a quoted string at `i`.
fn string_at(b: &[u8], i: usize) -> (r: Option<(String, usize)>)
    requires
        i <= b@.len(),
    ensures
        r matches Some(p) ==> spec_string(b@, i as int) == Some((p.0@, p.1 as int))
            && i < p.1 <= b@.len(),
        r is None ==> spec_string(b@, i as int) is None,
{
    if i < b.len() && b[i] == 0x22 {
        let acc = String::new();
        proof {
            assert(acc@ =~= Seq::<char>::empty());
        }
        string_body(b, i + 1, acc)
    } else {
        None
    }
}

/// The character sequences of a sequence of strings.
pub open spec fn strs_view(v: Seq<String>) -> Seq<Seq<char>> {
    v.map_values(|s: String| s@)
}

pub proof fn lemma_strs_view_push(v: Seq<String>, x: String)
    ensures
        strs_view(v.push(x)) =~= strs_view(v).push(x@),
{
}

/// The elements of a string array after its first string: the strings
/// collected so far, then one string, then either a comma and more elements
/// or the closing bracket.
pub open spec fn spec_string_items(s: Seq<u8>, i: int, acc: Seq<Seq<char>>) -> Option<
    (Seq<Seq<char>>, int),
>
    decreases s.len() - i,
{
    match spec_string(s, i) {
        None => None,
        Some(p) => {
            let j = spec_skip_ws(s, p.1);
            if j < s.len() && s[j] == 0x2c {
                proof {
                    lemma_string_bounds(s, i);
                    lemma_skip_ws_bounds(s, p.1);
                    lemma_skip_ws_bounds(s, j + 1);
                }
                spec_string_items(s, spec_skip_ws(s, j + 1), acc.push(p.0))
            } else if j < s.len() && s[j] == 0x5d {
                Some((acc.push(p.0), j + 1))
            } else {
                None
            }
        },
    }
}

pub proof fn lemma_string_items_bounds(s: Seq<u8>, i: int, acc: Seq<Seq<char>>)
    ensures
        spec_string_items(s, i, acc) matches Some(p) ==> i < p.1 <= s.len(),
    decreases s.len() - i,
{
    match spec_string(s, i) {
        None => {},
        Some(p) => {
            lemma_string_bounds(s, i);
            lemma_skip_ws_bounds(s, p.1);
            let j = spec_skip_ws(s, p.1);
            if j < s.len() && s[j] == 0x2c {
                lemma_skip_ws_bounds(s, j + 1);
                lemma_string_items_bounds(s, spec_skip_ws(s, j + 1), acc.push(p.0));
            }
        },
    }
}

/// An array of strings at `i`: its strings and the position after the
/// closing bracket.
pub open spec fn spec_string_list(s: Seq<u8>, i: int) -> Option<(Seq<Seq<char>>, int)> {
    if 0 <= i < s.len() && s[i] == 0x5b {
        let j = spec_skip_ws(s, i + 1);
        if j < s.len() && s[j] == 0x5d {
            Some((Seq::empty(), j + 1))
        } else {
            spec_string_items(s, j, Seq::empty())
        }
    } else {
        None
    }
}

pub proof fn lemma_string_list_bounds(s: Seq<u8>, i: int)
    ensures
        spec_string_list(s, i) matches Some(p) ==> i < p.1 <= s.len(),
{
    if 0 <= i < s.len() && s[i] == 0x5b {
        lemma_skip_ws_bounds(s, i + 1);
        let j = spec_skip_ws(s, i + 1);
        if !(j < s.len() && s[j] == 0x5d) {
            lemma_string_items_bounds(s, j, Seq::empty());
        }
    }
}

fn string_items(b: &[u8], i: usize, acc: Vec<String>) -> (r: Option<(Vec<String>, usize)>)
    requires
        i <= b@.len(),
    ensures
        r matches Some(p) ==> spec_string_items(b@, i as int, strs_view(acc@)) == Some(
            (strs_view(p.0@), p.1 as int),
        ) && i < p.1 <= b@.len(),
        r is None ==> spec_string_items(b@, i as int, strs_view(acc@)) is None,
    decreases b@.len() - i,
{
    match string_at(b, i) {
        None => None,
        Some((v, j)) => {
            let k = skip_ws(b, j);
            if k < b.len() && b[k] == 0x2c {
                let next = skip_ws(b, k + 1);
                let ghost acc0 = acc@;
                let mut acc = acc;
                let ghost vv = v@;
                acc.push(v);
                proof {
                    lemma_strs_view_push(acc0, acc@.last());
                    assert(strs_view(acc@) =~= strs_view(acc0).push(vv));
                }
                string_items(b, next, acc)
            } else if k < b.len() && b[k] == 0x5d {
                let ghost acc0 = acc@;
                let mut acc = acc;
                let ghost vv = v@;
                acc.push(v);
                proof {
                    lemma_strs_view_push(acc0, acc@.last());
                    assert(strs_view(acc@) =~= strs_view(acc0).push(vv));
                }
                Some((acc, k + 1))
            } else {
                None
            }
        },
    }
}

/// Parse an array of strings at `i`.
fn string_list(b: &[u8], i: usize) -> (r: Option<(Vec<String>, usize)>)
    requires
        i <= b@.len(),
    ensures
        r matches Some(p) ==> spec_string_list(b@, i as int) == Some(
            (strs_view(p.0@), p.1 as int),
        ) && i < p.1 <= b@.len(),
        r is None ==> spec_string_list(b@, i as int) is None,
{
    if i < b.len() && b[i] == 0x5b {
        let j = skip_ws(b, i + 1);
        if j < b.len() && b[j] == 0x5d {
            let out: Vec<String> = Vec::new();
            proof {
                assert(strs_view(out@) =~= Seq::<Seq<char>>::empty());
            }
            Some((out, j + 1))
        } else {
            let acc: Vec<String> = Vec::new();
            proof {
                assert(strs_view(acc@) =~= Seq::<Seq<char>>::empty());
            }
            string_items(b, j, acc)
        }
    } else {
        None
    }
}

/// Bytes that may make up a number token.
pub open spec fn is_number_byte(c: u8) -> bool {
    (0x30 <= c <= 0x39) || c == 0x2b || c == 0x2d || c == 0x2e || c == 0x65 || c == 0x45
}

/// The first position at or after `i` past a run of number bytes.
pub open spec fn spec_skip_number(s: Seq<u8>, i: int) -> int
    decreases s.len() - i,
{
    if 0 <= i < s.len() && is_number_byte(s[i]) {
        spec_skip_number(s, i + 1)
    } else {
        i
    }
}

pub proof fn lemma_skip_number_bounds(s: Seq<u8>, i: int)
    requires
        0 <= i <= s.len(),
    ensures
        i <= spec_skip_number(s, i) <= s.len(),
    decreases s.len() - i,
{
    if i < s.len() && is_number_byte(s[i]) {
        lemma_skip_number_bounds(s, i + 1);
    }
}

fn skip_number(b: &[u8], i: usize) -> (r: usize)
    requires
        i <= b@.len(),
    ensures
        r as int == spec_skip_number(b@, i as int),
        i <= r <= b@.len(),
    decreases b@.len() - i,
{
    if i < b.len() {
        let c = b[i];
        if (0x30 <= c && c <= 0x39) || c == 0x2b || c == 0x2d || c == 0x2e || c == 0x65
            || c == 0x45 {
            skip_number(b, i + 1)
        } else {
            i
        }
    } else {
        i
    }
}

/// The position after one tolerated field value at `i`: a string, an array
/// of strings, a number, or one of the words `null`, `true`, `false`.
pub open spec fn spec_skip_value(s: Seq<u8>, i: int) -> Option<int> {
    if !(0 <= i < s.len()) {
        None
    } else {
        let c = s[i];
        if c == 0x22 {
            match spec_string(s, i) {
                Some(p) => Some(p.1),
                None => None,
            }
        } else if c == 0x5b {
            match spec_string_list(s, i) {
                Some(p) => Some(p.1),
                None => None,
            }
        } else if c == 0x6e {
            if i + 4 <= s.len() && s[i + 1] == 0x75 && s[i + 2] == 0x6c && s[i + 3] == 0x6c {
                Some(i + 4)
            } else {
                None
            }
        } else if c == 0x74 {
            if i + 4 <= s.len() && s[i + 1] == 0x72 && s[i + 2] == 0x75 && s[i + 3] == 0x65 {
                Some(i + 4)
            } else {
                None
            }
        } else if c == 0x66 {
            if i + 5 <= s.len() && s[i + 1] == 0x61 && s[i + 2] == 0x6c && s[i + 3] == 0x73
                && s[i + 4] == 0x65 {
                Some(i + 5)
            } else {
                None
            }
        } else if (0x30 <= c <= 0x39) || c == 0x2d {
            Some(spec_skip_number(s, i))
        } else {
            None
        }
    }
}

pub proof fn lemma_skip_value_bounds(s: Seq<u8>, i: int)
    ensures
        spec_skip_value(s, i) matches Some(p) ==> i < p <= s.len(),
{
    if 0 <= i < s.len() {
        let c = s[i];
        if c == 0x22 {
            lemma_string_bounds(s, i);
        } else if c == 0x5b {
            lemma_string_list_bounds(s, i);
        } else if (0x30 <= c <= 0x39) || c == 0x2d {
            lemma_skip_number_bounds(s, i + 1);
        }
    }
}

fn skip_value(b: &[u8], i: usize) -> (r: Option<usize>)
    requires
        i <= b@.len(),
    ensures
        r matches Some(p) ==> spec_skip_value(b@, i as int) == Some(p as int)
            && i < p <= b@.len(),
        r is None ==> spec_skip_value(b@, i as int) is None,
{
    if i >= b.len() {
        None
    } else {
        let c = b[i];
        if c == 0x22 {
            match string_at(b, i) {
                Some((_, p)) => Some(p),
                None => None,
            }
        } else if c == 0x5b {
            match string_list(b, i) {
                Some((_, p)) => Some(p),
                None => None,
            }
        } else if c == 0x6e {
            if b.len() - i >= 4 && b[i + 1] == 0x75 && b[i + 2] == 0x6c && b[i + 3] == 0x6c {
                Some(i + 4)
            } else {
                None
            }
        } else if c == 0x74 {
            if b.len() - i >= 4 && b[i + 1] == 0x72 && b[i + 2] == 0x75 && b[i + 3] == 0x65 {
                Some(i + 4)
            } else {
                None
            }
        } else if c == 0x66 {
            if b.len() - i >= 5 && b[i + 1] == 0x61 && b[i + 2] == 0x6c && b[i + 3] == 0x73
                && b[i + 4] == 0x65 {
                Some(i + 5)
            } else {
                None
            }
        } else if (0x30 <= c && c <= 0x39) || c == 0x2d {
            let p = skip_number(b, i);
            proof {
                lemma_skip_number_bounds(b@, i as int + 1);
                assert(spec_skip_number(b@, i as int) == spec_skip_number(b@, i as int + 1));
            }
            Some(p)
        } else {
            None
        }
    }
}

/// One advisory record as the audit command reports it: one advisory that
/// affects one or more packages.
#[derive(Debug)]
pub struct AdvisoryRecord {
    pub severity: Severity,
    pub kind: String,
    pub name: String,
    pub packages: Vec<String>,
}

/// The mathematical value of an `AdvisoryRecord`.
pub ghost struct AdvisoryView {
    pub severity: Severity,
    pub kind: Seq<char>,
    pub name: Seq<char>,
    pub packages: Seq<Seq<char>>,
}

impl View for AdvisoryRecord {
    type V = AdvisoryView;

    open spec fn view(&self) -> AdvisoryView {
        AdvisoryView {
            severity: self.severity,
            kind: self.kind@,
            name: self.name@,
            packages: strs_view(self.packages@),
        }
    }
}

/// The mathematical values of a sequence of advisory records.
pub open spec fn advs_view(v: Seq<AdvisoryRecord>) -> Seq<AdvisoryView> {
    v.map_values(|a: AdvisoryRecord| a@)
}

pub proof fn lemma_advs_view_push(v: Seq<AdvisoryRecord>, x: AdvisoryRecord)
    ensures
        advs_view(v.push(x)) =~= advs_view(v).push(x@),
{
}

/// The severity that a severity name denotes; exactly the five names are
/// accepted.
pub open spec fn spec_severity_of(name: Seq<char>) -> Option<Severity> {
    if name == "Unknown"@ {
        Some(Severity::Unknown)
    } else if name == "Low"@ {
        Some(Severity::Low)
    } else if name == "Medium"@ {
        Some(Severity::Medium)
    } else if name == "High"@ {
        Some(Severity::High)
    } else if name == "Critical"@ {
        Some(Severity::Critical)
    } else {
        None
    }
}

fn severity_of(name: &String) -> (r: Option<Severity>)
    ensures
        r == spec_severity_of(name@),
{
    if *name == String::from_str("Unknown") {
        Some(Severity::Unknown)
    } else if *name == String::from_str("Low") {
        Some(Severity::Low)
    } else if *name == String::from_str("Medium") {
        Some(Severity::Medium)
    } else if *name == String::from_str("High") {
        Some(Severity::High)
    } else if *name == String::from_str("Critical") {
        Some(Severity::Critical)
    } else {
        None
    }
}

/// The known fields of one record while it is being read; each starts absent
/// and may be set once.
pub struct PartialRecord {
    pub severity: Option<Severity>,
    pub kind: Option<String>,
    pub name: Option<String>,
    pub packages: Option<Vec<String>>,
}

/// The mathematical value of a `PartialRecord`.
pub ghost struct PartialView {
    pub severity: Option<Severity>,
    pub kind: Option<Seq<char>>,
    pub name: Option<Seq<char>>,
    pub packages: Option<Seq<Seq<char>>>,
}

impl View for PartialRecord {
    type V = PartialView;

    open spec fn view(&self) -> PartialView {
        PartialView {
            severity: self.severity,
            kind: match self.kind {
                Some(k) => Some(k@),
                None => None,
            },
            name: match self.name {
                Some(n) => Some(n@),
                None => None,
            },
            packages: match self.packages {
                Some(p) => Some(strs_view(p@)),
                None => None,
            },
        }
    }
}

/// A record with no field seen yet.
pub open spec fn empty_partial() -> PartialView {
    PartialView { severity: None, kind: None, name: None, packages: None }
}

/// One field value at `i`, under the field's key: a known key takes its
/// typed value and must not repeat; an unknown key takes any tolerated value,
/// which is skipped.
pub open spec fn spec_field_value(s: Seq<u8>, i: int, key: Seq<char>, acc: PartialView) -> Option<
    (PartialView, int),
> {
    if key == "severity"@ {
        if acc.severity is Some {
            None
        } else {
            match spec_string(s, i) {
                Some(p) => match spec_severity_of(p.0) {
                    Some(sv) => Some((PartialView { severity: Some(sv), ..acc }, p.1)),
                    None => None,
                },
                None => None,
            }
        }
    } else if key == "kind"@ {
        if acc.kind is Some {
            None
        } else {
            match spec_string(s, i) {
                Some(p) => Some((PartialView { kind: Some(p.0), ..acc }, p.1)),
                None => None,
            }
        }
    } else if key == "name"@ {
        if acc.name is Some {
            None
        } else {
            match spec_string(s, i) {
                Some(p) => Some((PartialView { name: Some(p.0), ..acc }, p.1)),
                None => None,
            }
        }
    } else if key == "packages"@ {
        if acc.packages is Some {
            None
        } else {
            match spec_string_list(s, i) {
                Some(p) => Some((PartialView { packages: Some(p.0), ..acc }, p.1)),
                None => None,
            }
        }
    } else {
        match spec_skip_value(s, i) {
            Some(p) => Some((acc, p)),
            None => None,
        }
    }
}

pub proof fn lemma_field_value_bounds(s: Seq<u8>, i: int, key: Seq<char>, acc: PartialView)
    ensures
        spec_field_value(s, i, key, acc) matches Some(p) ==> i < p.1 <= s.len(),
{
    lemma_string_bounds(s, i);
    lemma_string_list_bounds(s, i);
    lemma_skip_value_bounds(s, i);
}

fn field_value(b: &[u8], i: usize, key: &String, acc: PartialRecord) -> (r: Option<
    (PartialRecord, usize),
>)
    requires
        i <= b@.len(),
    ensures
        r matches Some(p) ==> spec_field_value(b@, i as int, key@, acc@) == Some(
            (p.0@, p.1 as int),
        ) && i < p.1 <= b@.len(),
        r is None ==> spec_field_value(b@, i as int, key@, acc@) is None,
{
    if *key == String::from_str("severity") {
        if acc.severity.is_some() {
            None
        } else {
            match string_at(b, i) {
                Some((v, j)) => match severity_of(&v) {
                    Some(sv) => Some((PartialRecord { severity: Some(sv), ..acc }, j)),
                    None => None,
                },
                None => None,
            }
        }
    } else if *key == String::from_str("kind") {
        if acc.kind.is_some() {
            None
        } else {
            match string_at(b, i) {
                Some((v, j)) => Some((PartialRecord { kind: Some(v), ..acc }, j)),
                None => None,
            }
        }
    } else if *key == String::from_str("name") {
        if acc.name.is_some() {
            None
        } else {
            match string_at(b, i) {
                Some((v, j)) => Some((PartialRecord { name: Some(v), ..acc }, j)),
                None => None,
            }
        }
    } else if *key == String::from_str("packages") {
        if acc.packages.is_some() {
            None
        } else {
            match string_list(b, i) {
                Some((v, j)) => Some((PartialRecord { packages: Some(v), ..acc }, j)),
                None => None,
            }
        }
    } else {
        match skip_value(b, i) {
            Some(j) => Some((acc, j)),
            None => None,
        }
    }
}

/// The fields of a record from the first key on: each field is a key, a
/// colon and a value, the fields are separated by commas, and the record
/// ends at the closing brace.
pub open spec fn spec_fields(s: Seq<u8>, i: int, acc: PartialView) -> Option<(PartialView, int)>
    decreases s.len() - i,
{
    match spec_string(s, i) {
        None => None,
        Some(kp) => {
            let j = spec_skip_ws(s, kp.1);
            if !(j < s.len() && s[j] == 0x3a) {
                None
            } else {
                let m = spec_skip_ws(s, j + 1);
                match spec_field_value(s, m, kp.0, acc) {
                    None => None,
                    Some(vp) => {
                        let q = spec_skip_ws(s, vp.1);
                        if q < s.len() && s[q] == 0x2c {
                            proof {
                                lemma_string_bounds(s, i);
                                lemma_skip_ws_bounds(s, kp.1);
                                lemma_skip_ws_bounds(s, j + 1);
                                lemma_field_value_bounds(s, m, kp.0, acc);
                                lemma_skip_ws_bounds(s, vp.1);
                                lemma_skip_ws_bounds(s, q + 1);
                            }
                            spec_fields(s, spec_skip_ws(s, q + 1), vp.0)
                        } else if q < s.len() && s[q] == 0x7d {
                            Some((vp.0, q + 1))
                        } else {
                            None
                        }
                    },
                }
            }
        },
    }
}

pub proof fn lemma_fields_bounds(s: Seq<u8>, i: int, acc: PartialView)
    ensures
        spec_fields(s, i, acc) matches Some(p) ==> i < p.1 <= s.len(),
    decreases s.len() - i,
{
    match spec_string(s, i) {
        None => {},
        Some(kp) => {
            lemma_string_bounds(s, i);
            lemma_skip_ws_bounds(s, kp.1);
            let j = spec_skip_ws(s, kp.1);
            if j < s.len() && s[j] == 0x3a {
                lemma_skip_ws_bounds(s, j + 1);
                let m = spec_skip_ws(s, j + 1);
                match spec_field_value(s, m, kp.0, acc) {
                    None => {},
                    Some(vp) => {
                        lemma_field_value_bounds(s, m, kp.0, acc);
                        lemma_skip_ws_bounds(s, vp.1);
                        let q = spec_skip_ws(s, vp.1);
                        if q < s.len() && s[q] == 0x2c {
                            lemma_skip_ws_bounds(s, q + 1);
                            lemma_fields_bounds(s, spec_skip_ws(s, q + 1), vp.0);
                        }
                    },
                }
            }
        },
    }
}

fn fields_from(b: &[u8], i: usize, acc: PartialRecord) -> (r: Option<(PartialRecord, usize)>)
    requires
        i <= b@.len(),
    ensures
        r matches Some(p) ==> spec_fields(b@, i as int, acc@) == Some((p.0@, p.1 as int)) && i
            < p.1 <= b@.len(),
        r is None ==> spec_fields(b@, i as int, acc@) is None,
    decreases b@.len() - i,
{
    match string_at(b, i) {
        None => None,
        Some((key, j)) => {
            let k = skip_ws(b, j);
            if k < b.len() && b[k] == 0x3a {
                let m = skip_ws(b, k + 1);
                match field_value(b, m, &key, acc) {
                    None => None,
                    Some((acc2, n)) => {
                        let q = skip_ws(b, n);
                        if q < b.len() && b[q] == 0x2c {
                            let next = skip_ws(b, q + 1);
                            fields_from(b, next, acc2)
                        } else if q < b.len() && b[q] == 0x7d {
                            Some((acc2, q + 1))
                        } else {
                            None
                        }
                    },
                }
            } else {
                None
            }
        },
    }
}

/// A partial record closes into an advisory exactly when every known field
/// was seen.
pub open spec fn spec_complete(p: PartialView) -> Option<AdvisoryView> {
    if p.severity is Some && p.kind is Some && p.name is Some && p.packages is Some {
        Some(
            AdvisoryView {
                severity: p.severity.unwrap(),
                kind: p.kind.unwrap(),
                name: p.name.unwrap(),
                packages: p.packages.unwrap(),
            },
        )
    } else {
        None
    }
}

fn complete(p: PartialRecord) -> (r: Option<AdvisoryRecord>)
    ensures
        r matches Some(a) ==> spec_complete(p@) == Some(a@),
        r is None ==> spec_complete(p@) is None,
{
    match (p.severity, p.kind, p.name, p.packages) {
        (Some(severity), Some(kind), Some(name), Some(packages)) => Some(
            AdvisoryRecord { severity, kind, name, packages },
        ),
        _ => None,
    }
}

/// One advisory record at `i`: a brace-delimited object whose known fields
/// must each appear exactly once.
pub open spec fn spec_record(s: Seq<u8>, i: int) -> Option<(AdvisoryView, int)> {
    if 0 <= i < s.len() && s[i] == 0x7b {
        let j = spec_skip_ws(s, i + 1);
        match spec_fields(s, j, empty_partial()) {
            Some(p) => match spec_complete(p.0) {
                Some(a) => Some((a, p.1)),
                None => None,
            },
            None => None,
        }
    } else {
        None
    }
}

pub proof fn lemma_record_bounds(s: Seq<u8>, i: int)
    ensures
        spec_record(s, i) matches Some(p) ==> i < p.1 <= s.len(),
{
    if 0 <= i < s.len() && s[i] == 0x7b {
        lemma_skip_ws_bounds(s, i + 1);
        lemma_fields_bounds(s, spec_skip_ws(s, i + 1), empty_partial());
    }
}

fn record_at(b: &[u8], i: usize) -> (r: Option<(AdvisoryRecord, usize)>)
    requires
        i <= b@.len(),
    ensures
        r matches Some(p) ==> spec_record(b@, i as int) == Some((p.0@, p.1 as int)) && i < p.1
            <= b@.len(),
        r is None ==> spec_record(b@, i as int) is None,
{
    if i < b.len() && b[i] == 0x7b {
        let j = skip_ws(b, i + 1);
        let start = PartialRecord { severity: None, kind: None, name: None, packages: None };
        proof {
            assert(start@ == empty_partial());
        }
        match fields_from(b, j, start) {
            Some((p, k)) => match complete(p) {
                Some(a) => Some((a, k)),
                None => None,
            },
            None => None,
        }
    } else {
        None
    }
}

/// The records of the document's array from its first record on.
pub open spec fn spec_records(s: Seq<u8>, i: int, acc: Seq<AdvisoryView>) -> Option<
    (Seq<AdvisoryView>, int),
>
    decreases s.len() - i,
{
    match spec_record(s, i) {
        None => None,
        Some(p) => {
            let j = spec_skip_ws(s, p.1);
            if j < s.len() && s[j] == 0x2c {
                proof {
                    lemma_record_bounds(s, i);
                    lemma_skip_ws_bounds(s, p.1);
                    lemma_skip_ws_bounds(s, j + 1);
                }
                spec_records(s, spec_skip_ws(s, j + 1), acc.push(p.0))
            } else if j < s.len() && s[j] == 0x5d {
                Some((acc.push(p.0), j + 1))
            } else {
                None
            }
        },
    }
}

pub proof fn lemma_records_bounds(s: Seq<u8>, i: int, acc: Seq<AdvisoryView>)
    ensures
        spec_records(s, i, acc) matches Some(p) ==> i < p.1 <= s.len(),
    decreases s.len() - i,
{
    match spec_record(s, i) {
        None => {},
        Some(p) => {
            lemma_record_bounds(s, i);
            lemma_skip_ws_bounds(s, p.1);
            let j = spec_skip_ws(s, p.1);
            if j < s.len() && s[j] == 0x2c {
                lemma_skip_ws_bounds(s, j + 1);
                lemma_records_bounds(s, spec_skip_ws(s, j + 1), acc.push(p.0));
            }
        },
    }
}

fn records_from(b: &[u8], i: usize, acc: Vec<AdvisoryRecord>) -> (r: Option<
    (Vec<AdvisoryRecord>, usize),
>)
    requires
        i <= b@.len(),
    ensures
        r matches Some(p) ==> spec_records(b@, i as int, advs_view(acc@)) == Some(
            (advs_view(p.0@), p.1 as int),
        ) && i < p.1 <= b@.len(),
        r is None ==> spec_records(b@, i as int, advs_view(acc@)) is None,
    decreases b@.len() - i,
{
    match record_at(b, i) {
        None => None,
        Some((a, j)) => {
            let k = skip_ws(b, j);
            if k < b.len() && b[k] == 0x2c {
                let next = skip_ws(b, k + 1);
                let ghost acc0 = acc@;
                let mut acc = acc;
                let ghost av = a@;
                acc.push(a);
                proof {
                    lemma_advs_view_push(acc0, acc@.last());
                    assert(advs_view(acc@) =~= advs_view(acc0).push(av));
                }
                records_from(b, next, acc)
            } else if k < b.len() && b[k] == 0x5d {
                let ghost acc0 = acc@;
                let mut acc = acc;
                let ghost av = a@;
                acc.push(a);
                proof {
                    lemma_advs_view_push(acc0, acc@.last());
                    assert(advs_view(acc@) =~= advs_view(acc0).push(av));
                }
                Some((acc, k + 1))
            } else {
                None
            }
        },
    }
}

/// The whole document: optional whitespace, one array of advisory records,
/// optional whitespace, and nothing after it.
pub open spec fn spec_parse_advisories(s: Seq<u8>) -> Option<Seq<AdvisoryView>> {
    let i = spec_skip_ws(s, 0);
    if i < s.len() && s[i] == 0x5b {
        let j = spec_skip_ws(s, i + 1);
        if j < s.len() && s[j] == 0x5d {
            if spec_skip_ws(s, j + 1) == s.len() {
                Some(Seq::empty())
            } else {
                None
            }
        } else {
            match spec_records(s, j, Seq::empty()) {
                Some(p) => {
                    if spec_skip_ws(s, p.1) == s.len() {
                        Some(p.0)
                    } else {
                        None
                    }
                },
                None => None,
            }
        }
    } else {
        None
    }
}

/// Parse the audit command's report. The records come back exactly as the
/// document names them, in the document's order; any document that deviates
/// from the schema is rejected.
pub fn parse_advisories(b: &[u8]) -> (r: Option<Vec<AdvisoryRecord>>)
    ensures
        r matches Some(v) ==> spec_parse_advisories(b@) == Some(advs_view(v@)),
        r is None ==> spec_parse_advisories(b@) is None,
{
    let i = skip_ws(b, 0);
    if i < b.len() && b[i] == 0x5b {
        let j = skip_ws(b, i + 1);
        if j < b.len() && b[j] == 0x5d {
            let k = skip_ws(b, j + 1);
            if k == b.len() {
                let out: Vec<AdvisoryRecord> = Vec::new();
                proof {
                    assert(advs_view(out@) =~= Seq::<AdvisoryView>::empty());
                }
                Some(out)
            } else {
                None
            }
        } else {
            let acc: Vec<AdvisoryRecord> = Vec::new();
            proof {
                assert(advs_view(acc@) =~= Seq::<AdvisoryView>::empty());
            }
            match records_from(b, j, acc) {
                Some((v, k)) => {
                    let m = skip_ws(b, k);
                    if m == b.len() {
                        Some(v)
                    } else {
                        None
                    }
                },
                None => None,
            }
        }
    } else {
        None
    }
}

} // verus!
