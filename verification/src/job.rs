//! What a job file asks for, and how its trainees are pinned to the portal's
//! own list before anything is submitted.

use vstd::prelude::*;

use crate::decision::{decide_submit, decision_for, DecisionView, RetryPolicy};
use crate::protocol::{summary_text, Response, SessionInput, Status, TraineeInfo, TraineeRef, TraineeRefView};
use crate::recovery::white_space;
use crate::report::opt_text;
use crate::text::{decimal, owned, push_count, push_decimal, same_text};
use crate::engine::{key_for, queue_key};
use crate::recovery::lemma_filter_step_any;

verus! {

// ---------------------------------------------------------------------------
// names
// ---------------------------------------------------------------------------

/// The runs of non-white-space characters of `s`, joined by single spaces.
pub open spec fn collapsed(s: Seq<char>) -> Seq<char>
    decreases s.len(),
{
    if s.len() == 0 {
        Seq::empty()
    } else {
        let before = collapsed(s.drop_last());
        let c = s.last();
        if white_space(c) {
            before
        } else if s.len() >= 2 && white_space(s[s.len() - 2]) && before.len() > 0 {
            before.push(' ').push(c)
        } else {
            before.push(c)
        }
    }
}

/// What `str::to_uppercase` makes of a text: its full Unicode upper-case
/// mapping.
pub uninterp spec fn upper_case(text: Seq<char>) -> Seq<char>;

/// `str::to_uppercase`.
#[verifier::external_body]
fn uppercase(text: &str) -> (upper: String)
    ensures
        upper@ == upper_case(text@),
{
    text.to_uppercase()
}

/// The form two names are compared in: white space collapsed, upper-cased.
pub open spec fn normalized(name: Seq<char>) -> Seq<char> {
    upper_case(collapsed(name))
}

/// Collapse white space and upper-case, so "John  Doe" == "JOHN DOE".
pub fn normalize_name(value: &str) -> (normal: String)
    ensures
        normal@ == normalized(value@),
{
    let n = value.unicode_len();
    let mut out = String::new();
    let mut i: usize = 0;
    while i < n
        invariant
            n == value@.len(),
            i <= n,
            out@ == collapsed(value@.take(i as int)),
        decreases n - i,
    {
        let c = value.get_char(i);
        let ghost before = out@;
        proof {
            assert(value@.take(i as int + 1).drop_last() =~= value@.take(i as int));
            assert(value@.take(i as int + 1).last() == c);
        }
        if !crate::recovery::is_whitespace_char(c) {
            let gap = i >= 1 && crate::recovery::is_whitespace_char(value.get_char(i - 1));
            proof {
                if i >= 1 {
                    assert(value@.take(i as int + 1)[i - 1] == value@[i - 1]);
                }
            }
            if gap && out.unicode_len() > 0 {
                out.append(" ");
                proof {
                    reveal_strlit(" ");
                }
            }
            let one = value.substring_char(i, i + 1);
            out.append(one);
            proof {
                assert(one@ =~= seq![c]);
                if gap && before.len() > 0 {
                    assert(out@ =~= before.push(' ').push(c));
                } else {
                    assert(out@ =~= before.push(c));
                }
            }
        }
        i += 1;
    }
    assert(value@.take(n as int) =~= value@);
    uppercase(out.as_str())
}


// ---------------------------------------------------------------------------
// the job file
// ---------------------------------------------------------------------------

/// A job file: one trainee (the live gates) or a batch, and the training
/// details every submission shares.
pub struct Job {
    /// Single-trainee form.
    pub trainee: Option<TraineeRef>,
    /// Batch form; mutually exclusive with `trainee`.
    pub trainees: Option<Vec<TraineeRef>>,
    pub session: SessionInput,
}

/// What the job file asked for, after validation.
pub enum Plan {
    Single(TraineeRef),
    Batch(Vec<TraineeRef>),
}

/// Whether a trainee reference names anyone: by id, else by name.
pub open spec fn addressable(trainee: TraineeRefView) -> bool {
    trainee.id is Some || trainee.name is Some
}

/// Stable identity for a trainee reference: the id wins, else the raw name.
pub fn key_of(trainee: &TraineeRef) -> (key: Option<String>)
    ensures
        key is Some <==> addressable(trainee@),
        key matches Some(k) ==> k@ == key_for(trainee@, 0),
{
    match &trainee.id {
        Some(id) => Some(id.clone()),
        None => match &trainee.name {
            Some(name) => Some(name.clone()),
            None => None,
        },
    }
}

/// The first entry of a batch that names no one, if any.
pub open spec fn first_unaddressable(trainees: Seq<TraineeRef>, index: int) -> bool {
    &&& 0 <= index < trainees.len()
    &&& !addressable(trainees[index]@)
    &&& forall|k: int| 0 <= k < index ==> addressable(#[trigger] trainees[k]@)
}

/// Decide single vs batch from the job file.
///
/// Everything that can be checked without the portal is checked here, before a
/// browser opens: a malformed batch must fail closed rather than submit a
/// prefix of its trainees and then discover the problem.
pub fn plan(job: &Job) -> (planned: Result<Plan, String>)
    ensures
        (job.trainee is Some && job.trainees is Some) ==> (planned matches Err(e) && e@
            == "job has both 'trainee' and 'trainees' — use exactly one"@),
        (job.trainee is None && job.trainees is None) ==> (planned matches Err(e) && e@
            == "job needs 'trainee' or 'trainees'"@),
        job.trainees is None ==> (job.trainee matches Some(t) ==> if addressable(t@) {
            planned matches Ok(Plan::Single(s)) && s == t
        } else {
            planned matches Err(e) && e@ == "'trainee' needs an 'id' or a 'name'"@
        }),
        job.trainee is None ==> (job.trainees matches Some(ts) ==> if ts@.len() == 0 {
            planned matches Err(e) && e@ == "'trainees' is empty — nothing to submit"@
        } else if exists|i: int| first_unaddressable(ts@, i) {
            planned matches Err(e) && exists|i: int|
                first_unaddressable(ts@, i) && e@ == "trainees["@ + decimal(i as nat)
                    + "] needs an 'id' or a 'name'"@
        } else {
            planned matches Ok(Plan::Batch(b)) && b@ == ts@
        }),
{
    match (&job.trainee, &job.trainees) {
        (Some(_), Some(_)) => Err(
            String::from_str("job has both 'trainee' and 'trainees' — use exactly one"),
        ),
        (Some(trainee), None) => {
            match key_of(trainee) {
                None => Err(String::from_str("'trainee' needs an 'id' or a 'name'")),
                Some(_) => Ok(Plan::Single(trainee.copied())),
            }
        },
        (None, Some(trainees)) => {
            if trainees.len() == 0 {
                return Err(String::from_str("'trainees' is empty — nothing to submit"));
            }
            let mut index: usize = 0;
            while index < trainees.len()
                invariant
                    job.trainee is None,
                    job.trainees == Some(*trainees),
                    index <= trainees@.len(),
                    forall|k: int| 0 <= k < index ==> addressable(#[trigger] trainees@[k]@),
                decreases trainees@.len() - index,
            {
                if key_of(&trainees[index]).is_none() {
                    let mut e = String::from_str("trainees[");
                    push_count(&mut e, index);
                    e.append("] needs an 'id' or a 'name'");
                    assert(first_unaddressable(trainees@, index as int));
                    return Err(e);
                }
                index += 1;
            }
            proof {
                if exists|i: int| first_unaddressable(trainees@, i) {
                    let i = choose|i: int| first_unaddressable(trainees@, i);
                    assert(addressable(trainees@[i]@));
                }
            }
            let mut copy: Vec<TraineeRef> = Vec::new();
            let mut k: usize = 0;
            while k < trainees.len()
                invariant
                    k <= trainees@.len(),
                    copy@ == trainees@.take(k as int),
                decreases trainees@.len() - k,
            {
                copy.push(trainees[k].copied());
                assert(copy@ =~= trainees@.take(k as int + 1));
                k += 1;
            }
            assert(trainees@.take(trainees@.len() as int) =~= trainees@);
            Ok(Plan::Batch(copy))
        },
        (None, None) => Err(String::from_str("job needs 'trainee' or 'trainees'")),
    }
}


// ---------------------------------------------------------------------------
// pinning a batch to the portal's list
// ---------------------------------------------------------------------------

/// The position of the last portal entry listed under `id`: a later listing of
/// an id replaces an earlier one.
pub open spec fn last_with_id(available: Seq<TraineeInfo>, id: Seq<char>) -> Option<int>
    decreases available.len(),
{
    if available.len() == 0 {
        None
    } else if available.last().id@ == id {
        Some(available.len() - 1)
    } else {
        last_with_id(available.drop_last(), id)
    }
}

/// Whether a portal entry's name normalizes to `key`.
pub open spec fn named(key: Seq<char>) -> spec_fn(TraineeInfo) -> bool {
    |t: TraineeInfo| normalized(t.name@) == key
}

/// How one batch entry resolves against the portal's list: to a portal id, or
/// to the problem that stops the batch. An explicit id wins over a name; a name
/// must match exactly one trainee.
pub open spec fn resolution(available: Seq<TraineeInfo>, entry: TraineeRefView, index: nat) -> Result<
    Seq<char>,
    Seq<char>,
> {
    let label = key_for(entry, index);
    match entry.id {
        Some(id) => match last_with_id(available, id) {
            Some(k) => Ok(available[k].id@),
            None => Err(label + ": no trainee with that id on the portal"@),
        },
        None => {
            let name = match entry.name {
                Some(n) => n,
                None => ""@,
            };
            let found = available.filter(named(normalized(name)));
            if found.len() == 1 {
                Ok(found[0].id@)
            } else if found.len() == 0 {
                Err(label + ": no trainee with that name on the portal"@)
            } else {
                Err(label + ": "@ + decimal(found.len()) + " trainees share that name — give the trainee id"@)
            }
        },
    }
}

/// The portal ids the first `n` entries resolve to, repeats collapsed (first
/// occurrence wins), and the problems of those that do not resolve, both in
/// entry order.
pub open spec fn resolved_prefix(available: Seq<TraineeInfo>, entries: Seq<TraineeRef>, n: nat) -> (
    Seq<Seq<char>>,
    Seq<Seq<char>>,
)
    decreases n,
{
    if n == 0 {
        (Seq::empty(), Seq::empty())
    } else {
        let (ids, problems) = resolved_prefix(available, entries, (n - 1) as nat);
        match resolution(available, entries[n - 1]@, (n - 1) as nat) {
            Ok(id) => (if ids.contains(id) {
                ids
            } else {
                ids.push(id)
            }, problems),
            Err(problem) => (ids, problems.push(problem)),
        }
    }
}

/// The notice for an entry dropped as a repeat of one already queued.
pub open spec fn repeat_text(label: Seq<char>, id: Seq<char>) -> Seq<char> {
    label + ": already queued as id "@ + id + " — skipping"@
}

/// The notices for the first `n` entries that resolve to an id an earlier
/// entry already took, in entry order.
pub open spec fn repeats_prefix(available: Seq<TraineeInfo>, entries: Seq<TraineeRef>, n: nat) -> Seq<Seq<char>>
    decreases n,
{
    if n == 0 {
        Seq::empty()
    } else {
        let before = repeats_prefix(available, entries, (n - 1) as nat);
        match resolution(available, entries[n - 1]@, (n - 1) as nat) {
            Ok(id) => if resolved_prefix(available, entries, (n - 1) as nat).0.contains(id) {
                before.push(repeat_text(key_for(entries[n - 1]@, (n - 1) as nat), id))
            } else {
                before
            },
            Err(_) => before,
        }
    }
}

/// The views of a batch resolved to ids.
pub open spec fn ids_roster(ids: Seq<Seq<char>>) -> Seq<TraineeRefView> {
    ids.map_values(|id: Seq<char>| TraineeRefView { id: Some(id), name: None })
}

/// Whether one of the portal's own entries carries `id`.
pub open spec fn listed(available: Seq<TraineeInfo>, id: Seq<char>) -> bool {
    exists|j: int| 0 <= j < available.len() && #[trigger] available[j].id@ == id
}

proof fn lemma_last_with_id(available: Seq<TraineeInfo>, id: Seq<char>)
    ensures
        last_with_id(available, id) matches Some(k) ==> 0 <= k < available.len()
            && available[k].id@ == id,
    decreases available.len(),
{
    if available.len() > 0 && available.last().id@ != id {
        lemma_last_with_id(available.drop_last(), id);
        if let Some(k) = last_with_id(available.drop_last(), id) {
            assert(available.drop_last()[k] == available[k]);
        }
    }
}

proof fn lemma_filtered_from<A>(s: Seq<A>, pred: spec_fn(A) -> bool, i: int)
    requires
        0 <= i < s.filter(pred).len(),
    ensures
        exists|j: int| 0 <= j < s.len() && s[j] == s.filter(pred)[i],
    decreases s.len(),
{
    reveal(Seq::filter);
    let rest = s.drop_last();
    rest.lemma_filter_len(pred);
    if pred(s.last()) && i == rest.filter(pred).len() {
        assert(s[s.len() - 1] == s.filter(pred)[i]);
    } else {
        assert(s.filter(pred)[i] == rest.filter(pred)[i]);
        lemma_filtered_from(rest, pred, i);
        let j = choose|j: int| 0 <= j < rest.len() && rest[j] == rest.filter(pred)[i];
        assert(s[j] == rest[j]);
    }
}

/// A resolved batch submits each trainee at most once, and only trainees the
/// portal itself listed: repeats by id or by name collapse into one entry, and
/// nothing is guessed.
pub proof fn resolving_never_repeats_or_invents(
    available: Seq<TraineeInfo>,
    entries: Seq<TraineeRef>,
    n: nat,
)
    requires
        n <= entries.len(),
    ensures
        resolved_prefix(available, entries, n).0.no_duplicates(),
        forall|k: int|
            0 <= k < resolved_prefix(available, entries, n).0.len() ==> listed(
                available,
                #[trigger] resolved_prefix(available, entries, n).0[k],
            ),
    decreases n,
{
    if n > 0 {
        resolving_never_repeats_or_invents(available, entries, (n - 1) as nat);
        let entry = entries[n - 1]@;
        if let Ok(id) = resolution(available, entry, (n - 1) as nat) {
            match entry.id {
                Some(want) => {
                    lemma_last_with_id(available, want);
                    let k = last_with_id(available, want)->0;
                    assert(available[k].id@ == id);
                },
                None => {
                    let name = match entry.name {
                        Some(n) => n,
                        None => ""@,
                    };
                    let found = available.filter(named(normalized(name)));
                    lemma_filtered_from(available, named(normalized(name)), 0);
                    let j = choose|j: int| 0 <= j < available.len() && available[j] == found[0];
                    assert(available[j].id@ == id);
                },
            }
            assert(listed(available, id));
        }
    }
}

/// The last portal entry listed under `id`.
fn find_last_id(available: &Vec<TraineeInfo>, id: &str) -> (found: Option<usize>)
    ensures
        match found {
            Some(k) => k < available@.len() && last_with_id(available@, id@) == Some(k as int),
            None => last_with_id(available@, id@) is None,
        },
{
    let mut k: usize = available.len();
    assert(available@.take(k as int) =~= available@);
    while k > 0
        invariant
            k <= available@.len(),
            last_with_id(available@, id@) == last_with_id(available@.take(k as int), id@),
        decreases k,
    {
        let ghost prefix = available@.take(k as int);
        assert(prefix.drop_last() =~= available@.take(k as int - 1));
        assert(prefix.last() == available@[k - 1]);
        if same_text(available[k - 1].id.as_str(), id) {
            return Some(k - 1);
        }
        k -= 1;
    }
    None
}

/// The portal entries whose normalized name is `key`: how many, and the first.
fn find_by_name(available: &Vec<TraineeInfo>, normals: &Vec<String>, key: &str) -> (found: (
    usize,
    usize,
))
    requires
        normals@.len() == available@.len(),
        forall|k: int|
            0 <= k < available@.len() ==> #[trigger] normals@[k]@ == normalized(
                available@[k].name@,
            ),
    ensures
        found.0 == available@.filter(named(key@)).len(),
        found.0 > 0 ==> found.1 < available@.len() && available@.filter(named(key@))[0]
            == available@[found.1 as int],
{
    let mut count: usize = 0;
    let mut first: usize = 0;
    let mut k: usize = 0;
    while k < available.len()
        invariant
            normals@.len() == available@.len(),
            forall|j: int|
                0 <= j < available@.len() ==> #[trigger] normals@[j]@ == normalized(
                    available@[j].name@,
                ),
            k <= available@.len(),
            count == available@.take(k as int).filter(named(key@)).len(),
            count <= k,
            count > 0 ==> first < k && available@.take(k as int).filter(named(key@))[0]
                == available@[first as int],
        decreases available@.len() - k,
    {
        proof {
            lemma_filter_step_any(available@, k as int, named(key@));
        }
        if same_text(normals[k].as_str(), key) {
            if count == 0 {
                first = k;
            }
            count += 1;
        }
        k += 1;
    }
    assert(available@.take(available@.len() as int) =~= available@);
    (count, first)
}

/// Resolve every entry of a batch against the portal's list: the ids it
/// resolves to (repeats collapsed), the problems of the entries that do not
/// resolve, and a notice for each entry dropped as a repeat.
fn resolve_all(available: &Vec<TraineeInfo>, trainees: &Vec<TraineeRef>) -> (out: (
    Vec<TraineeRef>,
    Vec<String>,
    Vec<String>,
))
    ensures
        ({
            let (ids, problems) = resolved_prefix(available@, trainees@, trainees@.len());
            &&& out.0@.map_values(|t: TraineeRef| t@) == ids_roster(ids)
            &&& out.1@.map_values(|m: String| m@) == problems
            &&& out.2@.map_values(|m: String| m@) == repeats_prefix(available@, trainees@, trainees@.len())
        }),
{
    let mut normals: Vec<String> = Vec::new();
    let mut k: usize = 0;
    while k < available.len()
        invariant
            k <= available@.len(),
            normals@.len() == k,
            forall|j: int|
                0 <= j < k ==> #[trigger] normals@[j]@ == normalized(available@[j].name@),
        decreases available@.len() - k,
    {
        normals.push(normalize_name(available[k].name.as_str()));
        k += 1;
    }
    let mut resolved: Vec<TraineeRef> = Vec::new();
    let mut seen: Vec<String> = Vec::new();
    let mut problems: Vec<String> = Vec::new();
    let mut repeats: Vec<String> = Vec::new();
    let mut index: usize = 0;
    while index < trainees.len()
        invariant
            normals@.len() == available@.len(),
            forall|j: int|
                0 <= j < available@.len() ==> #[trigger] normals@[j]@ == normalized(
                    available@[j].name@,
                ),
            index <= trainees@.len(),
            seen@.map_values(|s: String| s@) == resolved_prefix(
                available@,
                trainees@,
                index as nat,
            ).0,
            resolved@.map_values(|t: TraineeRef| t@) == ids_roster(
                resolved_prefix(available@, trainees@, index as nat).0,
            ),
            problems@.map_values(|m: String| m@) == resolved_prefix(
                available@,
                trainees@,
                index as nat,
            ).1,
            repeats@.map_values(|m: String| m@) == repeats_prefix(available@, trainees@, index as nat),
        decreases trainees@.len() - index,
    {
        let entry = &trainees[index];
        let label = queue_key(entry, index);
        let ghost expected = resolution(available@, entry@, index as nat);
        let outcome: Result<String, String> = match &entry.id {
            Some(id) => match find_last_id(available, id.as_str()) {
                Some(k) => Ok(available[k].id.clone()),
                None => {
                    let mut problem = label;
                    problem.append(": no trainee with that id on the portal");
                    Err(problem)
                },
            },
            None => {
                let name = match &entry.name {
                    Some(n) => n.clone(),
                    None => owned(""),
                };
                let key = normalize_name(name.as_str());
                let (count, first) = find_by_name(available, &normals, key.as_str());
                if count == 1 {
                    Ok(available[first].id.clone())
                } else if count == 0 {
                    let mut problem = label;
                    problem.append(": no trainee with that name on the portal");
                    Err(problem)
                } else {
                    let mut problem = label;
                    problem.append(": ");
                    push_count(&mut problem, count);
                    problem.append(" trainees share that name — give the trainee id");
                    Err(problem)
                }
            },
        };
        let ghost seen_before = seen@.map_values(|s: String| s@);
        let ghost resolved_before = resolved@.map_values(|t: TraineeRef| t@);
        let ghost problems_before = problems@.map_values(|m: String| m@);
        let ghost repeats_before = repeats@.map_values(|m: String| m@);
        match outcome {
            Ok(found) => {
                assert(expected == Ok::<Seq<char>, Seq<char>>(found@));
                let mut already = false;
                let mut s: usize = 0;
                while s < seen.len()
                    invariant
                        s <= seen@.len(),
                        already ==> seen@.map_values(|x: String| x@).contains(found@),
                        !already ==> forall|j: int| 0 <= j < s ==> #[trigger] seen@[j]@ != found@,
                    decreases seen@.len() - s,
                {
                    if same_text(seen[s].as_str(), found.as_str()) {
                        assert(seen@.map_values(|x: String| x@)[s as int] == found@);
                        already = true;
                    }
                    s += 1;
                }
                proof {
                    if !already && seen_before.contains(found@) {
                        let j = choose|j: int| 0 <= j < seen_before.len() && seen_before[j] == found@;
                        assert(seen@[j]@ == found@);
                    }
                }
                if !already {
                    let ghost found_view = found@;
                    seen.push(found.clone());
                    let ghost resolved_prior = resolved@;
                    resolved.push(TraineeRef { id: Some(found), name: None });
                    proof {
                        assert(seen@.last()@ == found_view);
                        assert(resolved@ == resolved_prior.push(resolved@.last()));
                        assert(resolved@.last()@ == (TraineeRefView { id: Some(found_view), name: None }));
                        assert(ids_roster(seen_before.push(found_view)) =~= ids_roster(seen_before).push(
                            TraineeRefView { id: Some(found_view), name: None },
                        ));
                        assert(seen@.map_values(|x: String| x@) =~= seen_before.push(
                            seen@.last()@,
                        ));
                        assert(resolved@.map_values(|t: TraineeRef| t@) =~= ids_roster(
                            seen_before.push(seen@.last()@),
                        ));
                    }
                } else {
                    let mut notice = queue_key(entry, index);
                    notice.append(": already queued as id ");
                    notice.append(found.as_str());
                    notice.append(" — skipping");
                    repeats.push(notice);
                    proof {
                        assert(repeats@.map_values(|m: String| m@) =~= repeats_before.push(
                            repeats@.last()@,
                        ));
                    }
                }
            },
            Err(problem) => {
                problems.push(problem);
                proof {
                    assert(problems@.map_values(|m: String| m@) =~= problems_before.push(
                        problems@.last()@,
                    ));
                }
            },
        }
        index += 1;
    }
    (resolved, problems, repeats)
}

/// Resolve a batch against an already-fetched trainee list, then collapse
/// repeats.
///
/// An explicit id must exist, a name must match exactly one trainee, and
/// anything else stops the batch while nothing has been submitted. Repeats are
/// collapsed on the canonical id, so one person named by id and by name is
/// submitted once. Every unresolvable entry is reported, in one pass.
pub fn resolve_against(available: &Vec<TraineeInfo>, trainees: &Vec<TraineeRef>) -> (resolved: Result<
    Vec<TraineeRef>,
    Vec<String>,
>)
    ensures
        ({
            let (ids, problems) = resolved_prefix(available@, trainees@, trainees@.len());
            if problems.len() == 0 {
                resolved matches Ok(r) && r@.map_values(|t: TraineeRef| t@) == ids_roster(ids)
            } else {
                resolved matches Err(p) && p@.map_values(|m: String| m@) == problems
            }
        }),
{
    let (resolved, problems, _) = resolve_all(available, trainees);
    if problems.len() == 0 {
        Ok(resolved)
    } else {
        Err(problems)
    }
}

/// The entries of a batch dropped as repeats, one notice each, in entry order:
/// an entry that resolves to an id an earlier entry already took is not
/// queued a second time, and the operator is told so.
pub fn repeated_entries(available: &Vec<TraineeInfo>, trainees: &Vec<TraineeRef>) -> (notices: Vec<
    String,
>)
    ensures
        notices@.map_values(|m: String| m@) == repeats_prefix(available@, trainees@, trainees@.len()),
{
    let (_, _, repeats) = resolve_all(available, trainees);
    repeats
}


/// Why a batch could not be pinned to the portal.
pub enum ResolveFailure {
    /// The portal could not be read: an operator has to look, as with any halt.
    Halt(String),
    /// The batch itself is unusable. Nothing was submitted.
    BadBatch(String),
}

impl ResolveFailure {
    pub fn exit_code(&self) -> (code: i32)
        ensures
            code == match self {
                ResolveFailure::Halt(_) => 3i32,
                ResolveFailure::BadBatch(_) => 2i32,
            },
    {
        match self {
            ResolveFailure::Halt(_) => 3,
            ResolveFailure::BadBatch(_) => 2,
        }
    }

    pub fn message(&self) -> (text: &str)
        ensures
            text@ == match self {
                ResolveFailure::Halt(m) => m@,
                ResolveFailure::BadBatch(m) => m@,
            },
    {
        match self {
            ResolveFailure::Halt(message) => message.as_str(),
            ResolveFailure::BadBatch(message) => message.as_str(),
        }
    }
}

/// `items` joined by `separator`.
pub open spec fn joined(items: Seq<Seq<char>>, separator: Seq<char>) -> Seq<char>
    decreases items.len(),
{
    if items.len() == 0 {
        Seq::empty()
    } else if items.len() == 1 {
        items[0]
    } else {
        joined(items.drop_last(), separator) + separator + items.last()
    }
}

/// The report for a batch some of whose entries do not resolve.
pub open spec fn unresolved_text(problems: Seq<Seq<char>>, asked: nat) -> Seq<char> {
    "cannot resolve "@ + decimal(problems.len()) + " of "@ + decimal(asked) + " trainee(s):\n  - "@
        + joined(problems, "\n  - "@)
}

/// The views of a list of texts.
pub open spec fn text_views(items: Seq<String>) -> Seq<Seq<char>> {
    items.map_values(|s: String| s@)
}

fn unresolved(problems: &Vec<String>, asked: usize) -> (text: String)
    ensures
        text@ == unresolved_text(text_views(problems@), asked as nat),
{
    let mut text = String::from_str("cannot resolve ");
    push_count(&mut text, problems.len());
    text.append(" of ");
    push_count(&mut text, asked);
    text.append(" trainee(s):\n  - ");
    let ghost head = text@;
    let mut i: usize = 0;
    while i < problems.len()
        invariant
            i <= problems@.len(),
            text@ == head + joined(text_views(problems@).take(i as int), "\n  - "@),
        decreases problems@.len() - i,
    {
        let ghost items = text_views(problems@);
        proof {
            assert(items.take(i as int + 1).drop_last() =~= items.take(i as int));
            assert(items.take(i as int + 1).last() == problems@[i as int]@);
        }
        if i > 0 {
            text.append("\n  - ");
        }
        text.append(problems[i].as_str());
        proof {
            if i == 0 {
                assert(joined(items.take(0), "\n  - "@) =~= Seq::<char>::empty());
                assert(text@ =~= head + joined(items.take(1), "\n  - "@));
            } else {
                assert(text@ =~= head + joined(items.take(i as int + 1), "\n  - "@));
            }
        }
        i += 1;
    }
    assert(text_views(problems@).take(problems@.len() as int) =~= text_views(problems@));
    text
}

/// Pin a batch to the trainee list the worker returned for it.
pub fn resolve_listing(reply: Result<Response, String>, trainees: &Vec<TraineeRef>) -> (resolved:
    Result<Vec<TraineeRef>, ResolveFailure>)
    ensures
        match reply {
            Err(e) => resolved matches Err(ResolveFailure::Halt(m)) && m@ == "could not list trainees: "@ + e@,
            Ok(resp) => if resp.status != Status::Okay {
                resolved matches Err(ResolveFailure::Halt(m)) && m@ == "could not list trainees: "@
                    + summary_text(resp)
            } else {
                let listed = match resp.trainees {
                    Some(list) => list@,
                    None => Seq::empty(),
                };
                let (ids, problems) = resolved_prefix(listed, trainees@, trainees@.len());
                if problems.len() == 0 {
                    resolved matches Ok(r) && r@.map_values(|t: TraineeRef| t@) == ids_roster(ids)
                } else {
                    resolved matches Err(ResolveFailure::BadBatch(m)) && m@ == unresolved_text(
                        problems,
                        trainees@.len(),
                    )
                }
            },
        },
{
    match reply {
        Err(e) => {
            let mut m = String::from_str("could not list trainees: ");
            m.append(e.as_str());
            Err(ResolveFailure::Halt(m))
        },
        Ok(resp) => {
            if resp.status != Status::Okay {
                let mut m = String::from_str("could not list trainees: ");
                let summary = resp.summary();
                m.append(summary.as_str());
                return Err(ResolveFailure::Halt(m));
            }
            let empty: Vec<TraineeInfo> = Vec::new();
            let listed = match &resp.trainees {
                Some(list) => list,
                None => &empty,
            };
            match resolve_against(listed, trainees) {
                Ok(r) => Ok(r),
                Err(problems) => Err(ResolveFailure::BadBatch(unresolved(&problems, trainees.len()))),
            }
        },
    }
}

// ---------------------------------------------------------------------------
// one trainee, end to end
// ---------------------------------------------------------------------------

/// What the single-trainee path does after one submission attempt.
pub enum SingleStep {
    /// The run is over: print `line`, exit with `code`.
    Done { line: String, code: i32 },
    /// Wait `delay_ms`, then submit again; `reason` says why.
    Retry { delay_ms: u64, reason: String },
}

/// The line and exit code a final decision prints.
pub open spec fn single_result(reply: Result<Response, String>, attempt: u32, policy: RetryPolicy) -> (Seq<char>, i32) {
    match reply {
        Err(e) => ("HALT: transport error, submission state unknown: "@ + e@, 3),
        Ok(resp) => match decision_for(resp) {
            DecisionView::Accept(s) => ("RESULT: "@ + s, 0),
            DecisionView::Reject(s) => ("FAILED: "@ + s, 4),
            DecisionView::Halt(s) => ("HALT: "@ + s, 3),
            DecisionView::Retry(s) => ("FAILED: gave up after "@ + decimal(attempt as nat) + " attempts — "@ + s, 4),
        },
    }
}

/// Decide what follows submission attempt `attempt` (1-based) on the
/// single-trainee path: a classified result line and exit code, or another
/// attempt after the policy's delay. Only a reply that proves nothing was
/// submitted is retried, and never past the policy's attempt limit.
pub fn single_step(reply: Result<Response, String>, attempt: u32, policy: &RetryPolicy) -> (step: SingleStep)
    ensures
        match step {
            SingleStep::Retry { delay_ms, reason } => {
                &&& reply matches Ok(resp) && decision_for(resp) matches DecisionView::Retry(s) && reason@ == s
                &&& attempt < policy.max_attempts
                &&& delay_ms == crate::decision::backoff_delay(*policy, attempt)
            },
            SingleStep::Done { line, code } => {
                &&& !(reply matches Ok(resp) && decision_for(resp) is Retry && attempt < policy.max_attempts)
                &&& line@ == single_result(reply, attempt, *policy).0
                &&& code == single_result(reply, attempt, *policy).1
            },
        },
{
    match reply {
        Err(e) => {
            let mut line = String::from_str("HALT: transport error, submission state unknown: ");
            line.append(e.as_str());
            SingleStep::Done { line, code: 3 }
        },
        Ok(resp) => match decide_submit(&resp) {
            crate::decision::Decision::Accept(s) => {
                let mut line = String::from_str("RESULT: ");
                line.append(s.as_str());
                SingleStep::Done { line, code: 0 }
            },
            crate::decision::Decision::Reject(s) => {
                let mut line = String::from_str("FAILED: ");
                line.append(s.as_str());
                SingleStep::Done { line, code: 4 }
            },
            crate::decision::Decision::Halt(s) => {
                let mut line = String::from_str("HALT: ");
                line.append(s.as_str());
                SingleStep::Done { line, code: 3 }
            },
            crate::decision::Decision::Retry(s) => {
                if attempt >= policy.max_attempts {
                    let mut line = String::from_str("FAILED: gave up after ");
                    push_decimal(&mut line, attempt as u64);
                    line.append(" attempts — ");
                    line.append(s.as_str());
                    SingleStep::Done { line, code: 4 }
                } else {
                    SingleStep::Retry { delay_ms: policy.delay_for_attempt(attempt), reason: s }
                }
            },
        },
    }
}

} // verus!
