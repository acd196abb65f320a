//! The client-side reconciler.
//!
//! For each manifest entry the client observes its local file — absent,
//! unreadable, or hashed to a digest string — and classifies the entry as
//! Present, Missing or Corrupted. Observation gathering is disk work and
//! stays outside the library; classification is pure and verified here.
use vstd::prelude::*;

use crate::manifest::HashedFile;
use crate::manifest::manifest_model;
use crate::manifest::path_list_model;
use crate::manifest::spec_path_list_text;

verus! {

/// The classification of one manifest entry against the local tree.
#[derive(Clone, Copy, Debug, PartialEq, Eq, Structural)]
pub enum FileState {
    Present,
    Missing,
    Corrupted,
}

/// What the client observed of one local file: the file is absent, it
/// exists but could not be hashed, or it hashed to a digest string.
pub enum LocalObservation {
    Absent,
    Unreadable,
    Digest(String),
}

/// How one observation classifies against the digest the manifest
/// records: an absent file is Missing, an unreadable one is downgraded to
/// Missing so the server re-sends it, a matching digest is Present and a
/// differing one Corrupted.
pub open spec fn spec_classify(expected: Seq<char>, obs: LocalObservation) -> FileState {
    match obs {
        LocalObservation::Absent => FileState::Missing,
        LocalObservation::Unreadable => FileState::Missing,
        LocalObservation::Digest(d) => if d@ == expected {
            FileState::Present
        } else {
            FileState::Corrupted
        },
    }
}

/// The digest strings of a list of entries.
pub open spec fn hashes_model(files: Seq<HashedFile>) -> Seq<Seq<char>> {
    files.map_values(|f: HashedFile| f.hash@)
}

/// The whole classification pass: entry `i` of the result classifies
/// digest `i` against observation `i`.
pub open spec fn spec_reconcile(hashes: Seq<Seq<char>>, obs: Seq<LocalObservation>) -> Seq<
    FileState,
>
    recommends
        hashes.len() == obs.len(),
{
    Seq::new(hashes.len(), |i: int| spec_classify(hashes[i], obs[i]))
}

/// Classifies one manifest entry against its local observation.
pub fn classify_entry(entry: &HashedFile, obs: &LocalObservation) -> (s: FileState)
    ensures
        s == spec_classify(entry.hash@, *obs),
{
    match obs {
        LocalObservation::Absent => {
            assert(*obs matches LocalObservation::Absent);
            FileState::Missing
        },
        LocalObservation::Unreadable => {
            assert(*obs matches LocalObservation::Unreadable);
            FileState::Missing
        },
        LocalObservation::Digest(d) => {
            assert(*obs matches LocalObservation::Digest(dd) && dd == d);
            if d.eq(&entry.hash) {
                FileState::Present
            } else {
                FileState::Corrupted
            }
        },
    }
}

/// Classifies every manifest entry, in manifest order.
pub fn reconcile(files: &Vec<HashedFile>, obs: &Vec<LocalObservation>) -> (r: Vec<FileState>)
    requires
        obs@.len() == files@.len(),
    ensures
        r@ == spec_reconcile(hashes_model(files@), obs@),
{
    let mut out: Vec<FileState> = Vec::new();
    let mut i: usize = 0;
    while i < files.len()
        invariant
            i <= files@.len(),
            obs@.len() == files@.len(),
            out@.len() == i,
            forall|k: int|
                0 <= k < i ==> out@[k] == spec_classify(files@[k].hash@, obs@[k]),
        decreases files@.len() - i,
    {
        let s = classify_entry(&files[i], &obs[i]);
        out.push(s);
        i = i + 1;
    }
    proof {
        assert(out@ =~= spec_reconcile(hashes_model(files@), obs@));
    }
    out
}

/// The relative paths of the entries a reconciliation pass wants
/// repaired: everything not Present, in manifest order.
pub open spec fn spec_wanted(m: Seq<(Seq<char>, Seq<char>)>, sts: Seq<FileState>) -> Seq<Seq<char>>
    recommends
        m.len() == sts.len(),
    decreases m.len(),
{
    if m.len() == 0 {
        Seq::empty()
    } else {
        let rest = spec_wanted(m.drop_first(), sts.drop_first());
        if sts[0] == FileState::Present {
            rest
        } else {
            seq![m[0].0] + rest
        }
    }
}

/// Appending one entry and its state appends its path exactly when the
/// state is not Present.
proof fn lemma_spec_wanted_snoc(
    m: Seq<(Seq<char>, Seq<char>)>,
    sts: Seq<FileState>,
    e: (Seq<char>, Seq<char>),
    s: FileState,
)
    requires
        m.len() == sts.len(),
    ensures
        spec_wanted(m.push(e), sts.push(s)) =~= if s == FileState::Present {
            spec_wanted(m, sts)
        } else {
            spec_wanted(m, sts).push(e.0)
        },
    decreases m.len(),
{
    let m1 = m.push(e);
    let s1 = sts.push(s);
    if m.len() == 0 {
        assert(m1.drop_first() =~= Seq::<(Seq<char>, Seq<char>)>::empty());
        assert(s1.drop_first() =~= Seq::<FileState>::empty());
        assert(m1[0] == e && s1[0] == s);
        assert(spec_wanted(m1.drop_first(), s1.drop_first()) =~= Seq::<Seq<char>>::empty());
        if s == FileState::Present {
            assert(spec_wanted(m1, s1) =~= spec_wanted(m, sts));
        } else {
            assert(spec_wanted(m1, s1) =~= seq![e.0]);
            assert(spec_wanted(m, sts).push(e.0) =~= seq![e.0]);
        }
    } else {
        let restm = m.drop_first();
        let rests = sts.drop_first();
        assert(m1.drop_first() =~= restm.push(e));
        assert(s1.drop_first() =~= rests.push(s));
        lemma_spec_wanted_snoc(restm, rests, e, s);
        assert(m1[0] == m[0] && s1[0] == sts[0]);
        if s == FileState::Present {
            assert(spec_wanted(m1.drop_first(), s1.drop_first()) == spec_wanted(restm, rests));
            if sts[0] == FileState::Present {
                assert(spec_wanted(m1, s1) =~= spec_wanted(m, sts));
            } else {
                assert(spec_wanted(m1, s1) =~= seq![m[0].0] + spec_wanted(restm, rests));
                assert(spec_wanted(m, sts) =~= seq![m[0].0] + spec_wanted(restm, rests));
            }
        } else {
            assert(spec_wanted(m1.drop_first(), s1.drop_first()) == spec_wanted(
                restm,
                rests,
            ).push(e.0));
            if sts[0] == FileState::Present {
                assert(spec_wanted(m1, s1) =~= spec_wanted(m, sts).push(e.0));
            } else {
                assert(spec_wanted(m1, s1) =~= seq![m[0].0] + spec_wanted(restm, rests).push(
                    e.0,
                ));
                assert(seq![m[0].0] + spec_wanted(restm, rests).push(e.0) =~= (seq![m[0].0]
                    + spec_wanted(restm, rests)).push(e.0));
                assert(spec_wanted(m, sts).push(e.0) =~= (seq![m[0].0] + spec_wanted(
                    restm,
                    rests,
                )).push(e.0));
            }
        }
    }
}

/// Collects the relative paths of the entries that are not Present, in
/// manifest order.
pub fn wanted_paths(files: &Vec<HashedFile>, states: &Vec<FileState>) -> (r: Vec<String>)
    requires
        states@.len() == files@.len(),
    ensures
        path_list_model(r@) == spec_wanted(manifest_model(files@), states@),
{
    let mut out: Vec<String> = Vec::new();
    let mut i: usize = 0;
    proof {
        assert(files@.subrange(0, 0) =~= Seq::<HashedFile>::empty());
        assert(states@.subrange(0, 0) =~= Seq::<FileState>::empty());
        assert(manifest_model(files@.subrange(0, 0)) =~= Seq::<(Seq<char>, Seq<char>)>::empty());
        assert(path_list_model(out@) =~= spec_wanted(
            manifest_model(files@.subrange(0, 0)),
            states@.subrange(0, 0),
        ));
    }
    while i < files.len()
        invariant
            i <= files@.len(),
            states@.len() == files@.len(),
            path_list_model(out@) == spec_wanted(
                manifest_model(files@.subrange(0, i as int)),
                states@.subrange(0, i as int),
            ),
        decreases files@.len() - i,
    {
        let ghost mprefix = manifest_model(files@.subrange(0, i as int));
        let ghost sprefix = states@.subrange(0, i as int);
        let take = match states[i] {
            FileState::Present => false,
            _ => true,
        };
        let ghost old_out = out@;
        if take {
            out.push(files[i].path.clone());
        }
        proof {
            lemma_spec_wanted_snoc(
                mprefix,
                sprefix,
                (files@[i as int].path@, files@[i as int].hash@),
                states@[i as int],
            );
            assert(manifest_model(files@.subrange(0, i + 1)) =~= mprefix.push(
                (files@[i as int].path@, files@[i as int].hash@),
            ));
            assert(states@.subrange(0, i + 1) =~= sprefix.push(states@[i as int]));
            if take {
                assert(path_list_model(out@) =~= path_list_model(old_out).push(
                    files@[i as int].path@,
                ));
            }
            assert(path_list_model(out@) =~= spec_wanted(
                manifest_model(files@.subrange(0, i + 1)),
                states@.subrange(0, i + 1),
            ));
        }
        i = i + 1;
    }
    proof {
        assert(files@.subrange(0, files@.len() as int) =~= files@);
        assert(states@.subrange(0, states@.len() as int) =~= states@);
    }
    out
}

/// Builds the whole `GetFiles` body for a reconciliation pass: the paths
/// of the entries that are not Present, one per line.
pub fn request_body(files: &Vec<HashedFile>, states: &Vec<FileState>) -> (r: String)
    requires
        states@.len() == files@.len(),
    ensures
        r@ == spec_path_list_text(spec_wanted(manifest_model(files@), states@)),
{
    let wanted = wanted_paths(files, states);
    crate::manifest::format_path_list(&wanted)
}

/// Classification is deterministic: identical manifests and identical
/// observations yield the identical list of states, in the same order.
pub proof fn lemma_reconcile_deterministic(
    hashes1: Seq<Seq<char>>,
    obs1: Seq<LocalObservation>,
    hashes2: Seq<Seq<char>>,
    obs2: Seq<LocalObservation>,
)
    requires
        hashes1 == hashes2,
        obs1 == obs2,
    ensures
        spec_reconcile(hashes1, obs1) == spec_reconcile(hashes2, obs2),
{
}

/// After a successful repair every local digest matches its manifest
/// entry, and a reconciliation pass over such observations finds every
/// entry Present.
pub proof fn lemma_matching_digests_all_present(
    hashes: Seq<Seq<char>>,
    obs: Seq<LocalObservation>,
)
    requires
        obs.len() == hashes.len(),
        forall|i: int|
            0 <= i < obs.len() ==> ((#[trigger] obs[i]) matches LocalObservation::Digest(d)
                && d@ == hashes[i]),
    ensures
        forall|i: int|
            0 <= i < hashes.len() ==> #[trigger] spec_reconcile(hashes, obs)[i]
                == FileState::Present,
{
}

/// When every entry is Present the wanted list is empty and the
/// `GetFiles` body is empty text: a second run against an unchanged
/// server requests zero files.
pub proof fn lemma_all_present_requests_nothing(
    m: Seq<(Seq<char>, Seq<char>)>,
    sts: Seq<FileState>,
)
    requires
        sts.len() == m.len(),
        forall|i: int| 0 <= i < sts.len() ==> #[trigger] sts[i] == FileState::Present,
    ensures
        spec_wanted(m, sts) == Seq::<Seq<char>>::empty(),
        spec_path_list_text(spec_wanted(m, sts)) == Seq::<char>::empty(),
    decreases m.len(),
{
    if m.len() > 0 {
        assert(sts[0] == FileState::Present);
        lemma_all_present_requests_nothing(m.drop_first(), sts.drop_first());
    }
}

} // verus!
