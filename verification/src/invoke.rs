use vstd::prelude::*;
use vstd::string::StringExecFns;
use crate::parse::AdvisoryRecord;
use crate::parse::AdvisoryView;
use crate::parse::advs_view;
use crate::parse::spec_parse_advisories;
use crate::parse::parse_advisories;
use crate::status::Severity;
use crate::status::Status;
use crate::status::Update;
use crate::status::UpdateView;
use crate::status::spec_severity_label;
use crate::status::update_lt;
use crate::status::updates_sorted;
use crate::status::update_before;
use crate::status::lemma_update_lt_asym;
use crate::status::lemma_update_le_trans;

verus! {

broadcast use vstd::seq_lib::group_to_multiset_ensures;

/// The mathematical values of a sequence of updates.
pub open spec fn upds_view(v: Seq<Update>) -> Seq<UpdateView> {
    v.map_values(|u: Update| u@)
}

pub proof fn lemma_upds_view_push(v: Seq<Update>, x: Update)
    ensures
        upds_view(v.push(x)) =~= upds_view(v).push(x@),
{
}

pub proof fn lemma_upds_view_drop_last(v: Seq<Update>)
    requires
        v.len() > 0,
    ensures
        upds_view(v.drop_last()) =~= upds_view(v).drop_last(),
{
}

/// The update shown for one package of one advisory: the display line names
/// the severity, the package and the advisory's classification, and the link
/// leads to the advisory's page.
pub open spec fn spec_update_of(
    severity: Severity,
    kind: Seq<char>,
    name: Seq<char>,
    pkg: Seq<char>,
) -> UpdateView {
    UpdateView {
        severity: severity,
        pkg: pkg,
        text: spec_severity_label(severity) + ": "@ + pkg + " ("@ + kind + ")"@,
        link: "https://security.archlinux.org/"@ + name,
    }
}

/// The updates of one advisory record: one per affected package, in the
/// record's order.
pub open spec fn spec_expand_record(a: AdvisoryView) -> Seq<UpdateView> {
    Seq::new(a.packages.len(), |q: int| spec_update_of(a.severity, a.kind, a.name, a.packages[q]))
}

/// The updates of a sequence of advisory records, record by record.
pub open spec fn spec_expand(recs: Seq<AdvisoryView>) -> Seq<UpdateView>
    decreases recs.len(),
{
    if recs.len() == 0 {
        Seq::empty()
    } else {
        spec_expand(recs.drop_last()) + spec_expand_record(recs.last())
    }
}

/// How many package entries a sequence of advisory records carries in all.
pub open spec fn spec_total_packages(recs: Seq<AdvisoryView>) -> int
    decreases recs.len(),
{
    if recs.len() == 0 {
        0
    } else {
        spec_total_packages(recs.drop_last()) + recs.last().packages.len()
    }
}

/// Law: the expansion has exactly one update per affected package — its
/// length is the sum of the records' package counts.
pub proof fn lemma_expand_len(recs: Seq<AdvisoryView>)
    ensures
        spec_expand(recs).len() == spec_total_packages(recs),
    decreases recs.len(),
{
    if recs.len() > 0 {
        lemma_expand_len(recs.drop_last());
    }
}

fn make_update(severity: Severity, kind: &String, name: &String, pkg: &String) -> (r: Update)
    ensures
        r@ == spec_update_of(severity, kind@, name@, pkg@),
{
    let mut text = String::from_str(severity.label());
    text.append(": ");
    text.append(pkg.as_str());
    text.append(" (");
    text.append(kind.as_str());
    text.append(")");
    let mut link = String::from_str("https://security.archlinux.org/");
    link.append(name.as_str());
    Update { severity, pkg: pkg.clone(), text, link }
}

/// One update per affected package of each record, in the order the records
/// name them.
pub fn expand_advisories(recs: &Vec<AdvisoryRecord>) -> (r: Vec<Update>)
    ensures
        upds_view(r@) == spec_expand(advs_view(recs@)),
{
    let ghost rviews = advs_view(recs@);
    let mut out: Vec<Update> = Vec::new();
    let n = recs.len();
    let mut i: usize = 0;
    proof {
        assert(upds_view(out@) =~= Seq::<UpdateView>::empty());
        assert(rviews.take(0) =~= Seq::<AdvisoryView>::empty());
    }
    while i < n
        invariant
            n == recs@.len(),
            i <= n,
            rviews == advs_view(recs@),
            upds_view(out@) =~= spec_expand(rviews.take(i as int)),
        decreases n - i,
    {
        let rec = &recs[i];
        proof {
            assert(rviews[i as int] == recs@[i as int]@);
        }
        let m = rec.packages.len();
        let mut k: usize = 0;
        proof {
            assert(spec_expand_record(rviews[i as int]).take(0) =~= Seq::<UpdateView>::empty());
            assert(upds_view(out@) =~= spec_expand(rviews.take(i as int)) + spec_expand_record(
                rviews[i as int],
            ).take(0));
        }
        while k < m
            invariant
                n == recs@.len(),
                i < n,
                rviews == advs_view(recs@),
                rviews[i as int] == recs@[i as int]@,
                m == recs@[i as int].packages@.len(),
                k <= m,
                m == rviews[i as int].packages.len(),
                upds_view(out@) =~= spec_expand(rviews.take(i as int)) + spec_expand_record(
                    rviews[i as int],
                ).take(k as int),
            decreases m - k,
        {
            let rec = &recs[i];
            let u = make_update(rec.severity, &rec.kind, &rec.name, &rec.packages[k]);
            let ghost out0 = out@;
            out.push(u);
            proof {
                lemma_upds_view_push(out0, out@.last());
                assert(rviews[i as int].packages[k as int]
                    == recs@[i as int].packages@[k as int]@);
                assert(spec_expand_record(rviews[i as int])[k as int] == u@);
                assert(spec_expand_record(rviews[i as int]).take(k as int + 1)
                    =~= spec_expand_record(rviews[i as int]).take(k as int).push(u@));
                assert(upds_view(out@) =~= spec_expand(rviews.take(i as int))
                    + spec_expand_record(rviews[i as int]).take(k as int + 1));
            }
            k = k + 1;
        }
        proof {
            assert(spec_expand_record(rviews[i as int]).take(m as int) =~= spec_expand_record(
                rviews[i as int],
            ));
            assert(rviews.take(i as int + 1).drop_last() =~= rviews.take(i as int));
            assert(rviews.take(i as int + 1).last() == rviews[i as int]);
            assert(upds_view(out@) =~= spec_expand(rviews.take(i as int + 1)));
        }
        i = i + 1;
    }
    proof {
        assert(rviews.take(n as int) =~= rviews);
    }
    out
}

/// Where an update lands in an already ordered sequence: after everything
/// that does not come after it, so that insertion keeps the order of equals.
pub open spec fn spec_insert_sorted(t: Seq<UpdateView>, u: UpdateView) -> Seq<UpdateView>
    decreases t.len(),
{
    if t.len() == 0 {
        seq![u]
    } else if update_lt(u, t.last()) {
        spec_insert_sorted(t.drop_last(), u).push(t.last())
    } else {
        t.push(u)
    }
}

/// A sequence of updates in presentation order: each element inserted, in
/// turn, behind its equals.
pub open spec fn spec_sort_updates(s: Seq<UpdateView>) -> Seq<UpdateView>
    decreases s.len(),
{
    if s.len() == 0 {
        Seq::empty()
    } else {
        spec_insert_sorted(spec_sort_updates(s.drop_last()), s.last())
    }
}

pub proof fn lemma_insert_sorted_props(t: Seq<UpdateView>, u: UpdateView)
    requires
        updates_sorted(t),
    ensures
        updates_sorted(spec_insert_sorted(t, u)),
        spec_insert_sorted(t, u).to_multiset() == t.push(u).to_multiset(),
        spec_insert_sorted(t, u).len() == t.len() + 1,
    decreases t.len(),
{
    if t.len() == 0 {
        assert(seq![u] =~= Seq::<UpdateView>::empty().push(u));
    } else if update_lt(u, t.last()) {
        let t1 = t.drop_last();
        assert(updates_sorted(t1)) by {
            assert(forall|i: int, j: int|
                0 <= i < j < t1.len() ==> t1[i] == t[i] && t1[j] == t[j]);
        }
        lemma_insert_sorted_props(t1, u);
        let pre = spec_insert_sorted(t1, u);
        let r = pre.push(t.last());
        assert forall|i: int| 0 <= i < pre.len() implies !update_lt(t.last(), pre[i]) by {
            let x = pre[i];
            assert(pre.contains(x));
            assert(pre.to_multiset().contains(x));
            assert(t1.push(u).to_multiset().contains(x));
            assert(t1.push(u).contains(x));
            let k = choose|k: int| 0 <= k < t1.push(u).len() && t1.push(u)[k] == x;
            if k < t1.len() {
                assert(t[k] == t1[k]);
                assert(!update_lt(t[t.len() - 1], t[k]));
            } else {
                assert(x == u);
                lemma_update_lt_asym(u, t.last());
            }
        }
        assert(updates_sorted(r)) by {
            assert(forall|i: int, j: int|
                0 <= i < j < r.len() && j < r.len() - 1 ==> r[i] == pre[i] && r[j] == pre[j]);
        }
        assert(r.to_multiset() =~= t.push(u).to_multiset()) by {
            assert(t1.push(t.last()) =~= t);
            assert(r.to_multiset() == pre.to_multiset().insert(t.last()));
            assert(pre.to_multiset() == t1.to_multiset().insert(u));
            assert(t.push(u).to_multiset() == t1.push(t.last()).to_multiset().insert(u));
            assert(t1.push(t.last()).to_multiset() == t1.to_multiset().insert(t.last()));
        }
    } else {
        let r = t.push(u);
        assert forall|i: int| 0 <= i < t.len() implies !update_lt(u, t[i]) by {
            if i < t.len() - 1 {
                assert(!update_lt(t[t.len() - 1], t[i]));
                lemma_update_le_trans(t[i], t.last(), u);
            }
        }
        assert(updates_sorted(r)) by {
            assert(forall|i: int, j: int|
                0 <= i < j < r.len() && j < r.len() - 1 ==> r[i] == t[i] && r[j] == t[j]);
            assert(forall|i: int| 0 <= i < r.len() - 1 ==> r[i] == t[i]);
            assert(r[r.len() - 1] == u);
        }
    }
}

/// Law: ordering a sequence of updates keeps exactly its elements — the
/// result is in presentation order, holds the same updates with the same
/// multiplicities, and has the same length.
pub proof fn lemma_sort_updates_props(s: Seq<UpdateView>)
    ensures
        updates_sorted(spec_sort_updates(s)),
        spec_sort_updates(s).to_multiset() == s.to_multiset(),
        spec_sort_updates(s).len() == s.len(),
    decreases s.len(),
{
    if s.len() > 0 {
        let s1 = s.drop_last();
        lemma_sort_updates_props(s1);
        lemma_insert_sorted_props(spec_sort_updates(s1), s.last());
        assert(s1.push(s.last()) =~= s);
        assert(spec_sort_updates(s).to_multiset() =~= s.to_multiset()) by {
            assert(spec_sort_updates(s).to_multiset() == spec_sort_updates(s1).push(
                s.last(),
            ).to_multiset());
            assert(spec_sort_updates(s1).push(s.last()).to_multiset() == spec_sort_updates(
                s1,
            ).to_multiset().insert(s.last()));
            assert(s.to_multiset() == s1.to_multiset().insert(s.last()));
        }
    }
}

fn insert_sorted(t: Vec<Update>, u: Update) -> (r: Vec<Update>)
    ensures
        upds_view(r@) == spec_insert_sorted(upds_view(t@), u@),
    decreases t@.len(),
{
    let ghost t0 = t@;
    let mut t = t;
    if t.len() == 0 {
        t.push(u);
        proof {
            lemma_upds_view_push(t0, t@.last());
            assert(upds_view(t0).len() == 0);
            assert(upds_view(t@) =~= seq![t@.last()@]);
        }
        t
    } else {
        let goes_before = update_before(&u, &t[t.len() - 1]);
        proof {
            assert(upds_view(t0).last() == t0.last()@);
        }
        if goes_before {
            let last = t.pop().unwrap();
            proof {
                assert(t@ =~= t0.drop_last());
                lemma_upds_view_drop_last(t0);
            }
            let mut r = insert_sorted(t, u);
            let ghost r0 = r@;
            r.push(last);
            proof {
                lemma_upds_view_push(r0, r@.last());
            }
            r
        } else {
            t.push(u);
            proof {
                lemma_upds_view_push(t0, t@.last());
            }
            t
        }
    }
}

/// The updates in presentation order: severity descending, then package name
/// ascending, equals kept in their given order.
pub fn sort_updates(v: Vec<Update>) -> (r: Vec<Update>)
    ensures
        upds_view(r@) == spec_sort_updates(upds_view(v@)),
    decreases v@.len(),
{
    let ghost v0 = v@;
    let mut v = v;
    if v.len() == 0 {
        proof {
            assert(upds_view(v@) =~= Seq::<UpdateView>::empty());
        }
        v
    } else {
        let x = v.pop().unwrap();
        proof {
            assert(v@ =~= v0.drop_last());
            lemma_upds_view_drop_last(v0);
            assert(upds_view(v0).last() == v0.last()@);
        }
        let s = sort_updates(v);
        insert_sorted(s, x)
    }
}

/// The update list for a set of advisory records: one update per affected
/// package, in presentation order.
pub fn updates_from_advisories(recs: &Vec<AdvisoryRecord>) -> (r: Vec<Update>)
    ensures
        upds_view(r@) == spec_sort_updates(spec_expand(advs_view(recs@))),
        updates_sorted(upds_view(r@)),
        upds_view(r@).to_multiset() == spec_expand(advs_view(recs@)).to_multiset(),
        upds_view(r@).len() == spec_total_packages(advs_view(recs@)),
{
    let flat = expand_advisories(recs);
    let r = sort_updates(flat);
    proof {
        lemma_sort_updates_props(spec_expand(advs_view(recs@)));
        lemma_expand_len(advs_view(recs@));
    }
    r
}

/// Law: for any advisory records, the update list is in presentation order
/// and has exactly one entry per affected package.
pub proof fn lemma_updates_sorted_and_counted(recs: Seq<AdvisoryView>)
    ensures
        updates_sorted(spec_sort_updates(spec_expand(recs))),
        spec_sort_updates(spec_expand(recs)).len() == spec_total_packages(recs),
{
    lemma_sort_updates_props(spec_expand(recs));
    lemma_expand_len(recs);
}

/// What the error stream's bytes read as, replacing what is not valid text.
pub uninterp spec fn lossy_decoded(bytes: Seq<u8>) -> Seq<char>;

/// Relies on `String::from_utf8_lossy`: the decoding depends on the bytes
/// alone.
#[verifier::external_body]
fn utf8_lossy(bytes: &[u8]) -> (r: String)
    ensures
        r@ == lossy_decoded(bytes@),
{
    String::from_utf8_lossy(bytes).into_owned()
}

/// The characters with surrounding whitespace removed.
pub uninterp spec fn trimmed(s: Seq<char>) -> Seq<char>;

/// Relies on `str::trim`: the result depends on the characters alone.
#[verifier::external_body]
fn trim_str(s: &String) -> (r: String)
    ensures
        r@ == trimmed(s@),
{
    String::from(s.trim())
}

/// Classify one finished run of the audit command. A failed run reports its
/// trimmed error stream; a clean run's output is parsed, and either becomes
/// the ordered update list or, on any deviation from the schema, a parse
/// error.
pub fn check_result_from_output(success: bool, stdout: &[u8], stderr: &[u8]) -> (r: Status)
    ensures
        !success ==> (r matches Status::Error(e) && e@ == trimmed(lossy_decoded(stderr@))),
        success && spec_parse_advisories(stdout@) is None ==> (r matches Status::Error(e)
            && e@ == "Failed to parse arch-audit json output"@),
        success && spec_parse_advisories(stdout@) is Some ==> (r matches Status::MissingUpdates(v)
            && upds_view(v@) == spec_sort_updates(
            spec_expand(spec_parse_advisories(stdout@).unwrap()),
        )),
{
    if success {
        match parse_advisories(stdout) {
            Some(recs) => Status::MissingUpdates(updates_from_advisories(&recs)),
            None => Status::Error(String::from_str("Failed to parse arch-audit json output")),
        }
    } else {
        let text = utf8_lossy(stderr);
        Status::Error(trim_str(&text))
    }
}

} // verus!
