//! Resource (library) lifecycle and catalog queries: the one legal
//! transition active -> hidden, the cascading physical deletion a
//! detached worker performs later, and the read paths that exclude
//! hidden resources the moment the flag is set.

use vstd::prelude::*;
use crate::store::{
    Store, StoreView, Library, LibraryView, Media, MediaView, MediaFile, MediaFileView,
    libs_view, media_view, files_view, clone_library, clone_media, clone_mediafile,
    lemma_filter_take_step, lemma_filter_membership, lemma_libs_wf_same_ids, lemma_libs_wf_push,
    lemma_libs_wf_filter,
};
use crate::order::{lex_le, lemma_lex_total, lemma_lex_trans, str_lex_le};
use crate::publisher::{Publisher, LifecycleEvent, LifecycleEventType, event_json, offered};
use crate::CoreError;

verus! {

/// Holds of rows a read path may show.
pub open spec fn lib_visible() -> spec_fn(LibraryView) -> bool {
    |l: LibraryView| !l.hidden
}

/// Holds of library rows that survive a cascade for `id`.
pub open spec fn lib_stays(id: int) -> spec_fn(LibraryView) -> bool {
    |l: LibraryView| l.id != id
}

/// Holds of media rows that survive a cascade for `id`.
pub open spec fn media_stays(id: int) -> spec_fn(MediaView) -> bool {
    |m: MediaView| m.library_id != id
}

/// Holds of file rows that survive a cascade for `id`.
pub open spec fn file_stays(id: int) -> spec_fn(MediaFileView) -> bool {
    |f: MediaFileView| f.library_id != id
}

/// Holds of the unmatched files of library `id`.
pub open spec fn file_unmatched_in(id: int) -> spec_fn(MediaFileView) -> bool {
    |f: MediaFileView| f.library_id == id && f.media_id is None
}

/// The libraries a read path may show: the rows not marked hidden.
pub open spec fn visible_libs(s: StoreView) -> Seq<LibraryView> {
    s.libraries.filter(lib_visible())
}

/// A listing is ordered when names ascend.
pub open spec fn libs_sorted(s: Seq<LibraryView>) -> bool {
    forall|i: int, j: int| 0 <= i < j < s.len() ==> lex_le(s[i].name, s[j].name)
}

/// Same for catalog records.
pub open spec fn media_sorted(s: Seq<MediaView>) -> bool {
    forall|i: int, j: int| 0 <= i < j < s.len() ==> lex_le(s[i].name, s[j].name)
}

/// How one library row looks after `mark_hidden(id)`.
pub open spec fn hide_one(l: LibraryView, id: int) -> LibraryView {
    if l.id == id {
        LibraryView { id: l.id, name: l.name, hidden: true }
    } else {
        l
    }
}




/// The synchronous half of deletion: flags the row hidden inside the
/// caller's writer transaction and reports how many rows changed (one
/// exactly when a visible row with this id existed, else zero).
#[verifier::loop_isolation(false)]
pub fn mark_hidden(store: &mut Store, id: i64) -> (r: u64)
    requires
        old(store)@.wf(),
    ensures
        final(store)@.wf(),
        r == if old(store)@.has_visible_lib(id as int) { 1int } else { 0int },
        final(store)@.libraries.len() == old(store)@.libraries.len(),
        forall|i: int|
            0 <= i < old(store)@.libraries.len() ==> final(store)@.libraries[i] == hide_one(
                old(store)@.libraries[i],
                id as int,
            ),
        final(store)@.media == old(store)@.media,
        final(store)@.mediafiles == old(store)@.mediafiles,
        final(store)@.users == old(store)@.users,
        final(store)@.invites == old(store)@.invites,
        final(store)@.next_library_id == old(store)@.next_library_id,
        !final(store)@.has_visible_lib(id as int),
        final(store)@ == mark_hidden_post(old(store)@, id as int),
        r == mark_hidden_result(old(store)@, id as int),
{
    let ghost olibs = old(store)@.libraries;
    let mut out: Vec<Library> = Vec::new();
    let mut count: u64 = 0;
    let mut i: usize = 0;
    while i < store.libraries.len()
        invariant
            old(store)@.wf(),
            store.libraries == old(store).libraries,
            olibs == old(store)@.libraries,
            i <= store.libraries.len(),
            out.len() == i,
            olibs.len() == store.libraries.len(),
            forall|j: int| 0 <= j < i ==> out@[j]@ == hide_one(olibs[j], id as int),
            count == if (exists|k: int|
                0 <= k < i && #[trigger] olibs[k].id == id as int && !olibs[k].hidden) {
                1int
            } else {
                0int
            },
        decreases store.libraries.len() - i,
    {
        let l = &store.libraries[i];
        if l.id == id {
            out.push(Library { id: l.id, name: l.name.clone(), hidden: true });
            if !l.hidden {
                proof {
                    assert forall|k: int|
                        0 <= k < i implies !(#[trigger] olibs[k].id == id as int
                        && !olibs[k].hidden) by {
                        assert(olibs[k].id != olibs[i as int].id);
                    }
                }
                count = count + 1;
            }
        } else {
            out.push(clone_library(l));
        }
        proof {
            if olibs[i as int].id == id as int && !olibs[i as int].hidden {
                assert(exists|k: int|
                    0 <= k < i + 1 && #[trigger] olibs[k].id == id as int && !olibs[k].hidden);
            } else {
                if exists|k: int|
                    0 <= k < i + 1 && #[trigger] olibs[k].id == id as int && !olibs[k].hidden {
                    let k = choose|k: int|
                        0 <= k < i + 1 && #[trigger] olibs[k].id == id as int && !olibs[k].hidden;
                    assert(k != i);
                    assert(exists|k: int|
                        0 <= k < i && #[trigger] olibs[k].id == id as int && !olibs[k].hidden);
                }
            }
        }
        i += 1;
    }
    store.libraries = out;
    proof {
        assert(final(store)@.libraries.len() == olibs.len());
        if old(store)@.has_visible_lib(id as int) {
            let k = choose|k: int|
                0 <= k < olibs.len() && #[trigger] olibs[k].id == id as int && !olibs[k].hidden;
            assert(count == 1);
        }
        assert forall|i: int|
            0 <= i < final(store)@.libraries.len() implies !((#[trigger] final(store)@.libraries[i].id)
            == id as int && !final(store)@.libraries[i].hidden) by {
            assert(final(store)@.libraries[i] == hide_one(olibs[i], id as int));
        }
        assert forall|t: int|
            0 <= t < final(store)@.libraries.len() implies final(store)@.libraries[t]
            == mark_hidden_post(old(store)@, id as int).libraries[t] by {
            assert(final(store)@.libraries[t] == hide_one(olibs[t], id as int));
            assert(mark_hidden_post(old(store)@, id as int).libraries[t] == hide_map(id as int)(
                olibs[t],
            ));
        }
        assert(final(store)@.libraries =~= mark_hidden_post(old(store)@, id as int).libraries);
        assert(final(store)@ =~= mark_hidden_post(old(store)@, id as int));
        assert forall|t: int|
            0 <= t < final(store)@.libraries.len() implies (#[trigger] final(store)@.libraries[t].id)
            == olibs[t].id by {
            assert(final(store)@.libraries[t] == hide_one(olibs[t], id as int));
        }
        lemma_libs_wf_same_ids(olibs, final(store)@.libraries, old(store)@.next_library_id);
    }
    count
}

/// The detached worker's cascade: deletes the resource row and every
/// dependent record for it, all together, inside the worker's own writer
/// transaction. Errors of a real adapter abort the whole cascade; this
/// in-memory form always completes.
#[verifier::loop_isolation(false)]
pub fn cascade_delete(store: &mut Store, id: i64)
    requires
        old(store)@.wf(),
    ensures
        final(store)@.wf(),
        final(store)@.libraries == old(store)@.libraries.filter(lib_stays(id as int)),
        final(store)@.media == old(store)@.media.filter(media_stays(id as int)),
        final(store)@.mediafiles == old(store)@.mediafiles.filter(file_stays(id as int)),
        final(store)@.users == old(store)@.users,
        final(store)@.invites == old(store)@.invites,
        final(store)@.next_library_id == old(store)@.next_library_id,
        !final(store)@.has_lib(id as int),
        forall|i: int|
            0 <= i < final(store)@.media.len() ==> final(store)@.media[i].library_id != id as int,
        forall|i: int|
            0 <= i < final(store)@.mediafiles.len() ==> final(store)@.mediafiles[i].library_id
                != id as int,
{
    let ghost olibs = old(store)@.libraries;
    let ghost lpred = lib_stays(id as int);
    let mut libs: Vec<Library> = Vec::new();
    let mut i: usize = 0;
    while i < store.libraries.len()
        invariant
            store.libraries == old(store).libraries,
            olibs == old(store)@.libraries,
            i <= store.libraries.len(),
            libs_view(libs@) == olibs.take(i as int).filter(lpred),
        decreases store.libraries.len() - i,
    {
        let l = &store.libraries[i];
        proof {
            lemma_filter_take_step(olibs, i as int, lpred);
        }
        if l.id != id {
            libs.push(clone_library(l));
            proof {
                assert(libs_view(libs@) =~= olibs.take(i as int).filter(lpred).push(
                    olibs[i as int],
                ));
            }
        }
        i += 1;
    }
    let ghost omedia = old(store)@.media;
    let ghost mpred = media_stays(id as int);
    let mut media: Vec<Media> = Vec::new();
    let mut i: usize = 0;
    while i < store.media.len()
        invariant
            store.media == old(store).media,
            omedia == old(store)@.media,
            i <= store.media.len(),
            media_view(media@) == omedia.take(i as int).filter(mpred),
        decreases store.media.len() - i,
    {
        let m = &store.media[i];
        proof {
            lemma_filter_take_step(omedia, i as int, mpred);
        }
        if m.library_id != id {
            media.push(clone_media(m));
            proof {
                assert(media_view(media@) =~= omedia.take(i as int).filter(mpred).push(
                    omedia[i as int],
                ));
            }
        }
        i += 1;
    }
    let ghost ofiles = old(store)@.mediafiles;
    let ghost fpred = file_stays(id as int);
    let mut files: Vec<MediaFile> = Vec::new();
    let mut i: usize = 0;
    while i < store.mediafiles.len()
        invariant
            store.mediafiles == old(store).mediafiles,
            ofiles == old(store)@.mediafiles,
            i <= store.mediafiles.len(),
            files_view(files@) == ofiles.take(i as int).filter(fpred),
        decreases store.mediafiles.len() - i,
    {
        let f = &store.mediafiles[i];
        proof {
            lemma_filter_take_step(ofiles, i as int, fpred);
        }
        if f.library_id != id {
            files.push(clone_mediafile(f));
            proof {
                assert(files_view(files@) =~= ofiles.take(i as int).filter(fpred).push(
                    ofiles[i as int],
                ));
            }
        }
        i += 1;
    }
    store.libraries = libs;
    store.media = media;
    store.mediafiles = files;
    proof {
        assert(olibs.take(olibs.len() as int) =~= olibs);
        assert(omedia.take(omedia.len() as int) =~= omedia);
        assert(ofiles.take(ofiles.len() as int) =~= ofiles);
        let f = olibs.filter(lpred);
        lemma_libs_wf_filter(olibs, old(store)@.next_library_id, lpred);
        assert forall|i: int| 0 <= i < f.len() implies !(#[trigger] f[i].id == id as int) by {
            Seq::lemma_filter_pred(olibs, lpred, i);
            assert(lpred(f[i]));
            assert(lib_stays(id as int)(f[i]) == (f[i].id != id as int));
        }
        Seq::lemma_filter_len(omedia, mpred);
        assert forall|i: int|
            0 <= i < final(store)@.media.len() implies #[trigger] final(store)@.media[i].library_id
                != id as int by {
            Seq::lemma_filter_pred(omedia, mpred, i);
        }
        Seq::lemma_filter_len(ofiles, fpred);
        assert forall|i: int|
            0 <= i < final(store)@.mediafiles.len() implies (#[trigger] final(store)@.mediafiles[i].library_id)
            != id as int by {
            Seq::lemma_filter_pred(ofiles, fpred, i);
        }
    }
}

/// Looks one visible library up by id; hidden or absent rows are not
/// found.
#[verifier::loop_isolation(false)]
pub fn get_self(store: &Store, id: i64) -> (r: Result<Library, CoreError>)
    requires
        store@.wf(),
    ensures
        r is Ok <==> store@.has_visible_lib(id as int),
        r is Err ==> r == Err::<Library, CoreError>(CoreError::NotFound),
        r is Ok ==> r.unwrap()@.id == id as int && !r.unwrap()@.hidden,
        r is Ok ==> forall|i: int|
            0 <= i < store@.libraries.len() && #[trigger] store@.libraries[i].id == id as int
                && !store@.libraries[i].hidden ==> r.unwrap()@ == store@.libraries[i],
{
    let mut i: usize = 0;
    while i < store.libraries.len()
        invariant
            store@.wf(),
            i <= store.libraries.len(),
            forall|k: int|
                0 <= k < i ==> !(#[trigger] store@.libraries[k].id == id as int
                    && !store@.libraries[k].hidden),
        decreases store.libraries.len() - i,
    {
        let l = &store.libraries[i];
        if l.id == id && !l.hidden {
            proof {
                assert(store@.libraries[i as int].id == id as int
                    && !store@.libraries[i as int].hidden);
                assert(store@.has_visible_lib(id as int));
                assert forall|k: int|
                    0 <= k < store@.libraries.len() && #[trigger] store@.libraries[k].id
                        == id as int && !store@.libraries[k].hidden implies store@.libraries[i as int]
                    == store@.libraries[k] by {
                    if k != i {
                        assert(store@.libraries[k].id != store@.libraries[i as int].id);
                    }
                }
            }
            return Ok(clone_library(l));
        }
        i += 1;
    }
    Err(CoreError::NotFound)
}

/// Lists the files of a library that no catalog entry has matched yet.
/// Grouping them by their on-disk directory is the caller's concern.
#[verifier::loop_isolation(false)]
pub fn get_all_unmatched_media(store: &Store, id: i64) -> (r: Vec<MediaFile>)
    ensures
        files_view(r@) == store@.mediafiles.filter(file_unmatched_in(id as int)),
{
    let ghost ofiles = store@.mediafiles;
    let ghost pred = file_unmatched_in(id as int);
    let mut out: Vec<MediaFile> = Vec::new();
    let mut i: usize = 0;
    proof {
        reveal_with_fuel(Seq::filter, 1);
        assert(ofiles.take(0) =~= Seq::<MediaFileView>::empty());
        assert(Seq::<MediaFileView>::empty().filter(pred) =~= Seq::<MediaFileView>::empty());
        assert(files_view(out@) =~= Seq::<MediaFileView>::empty());
    }
    while i < store.mediafiles.len()
        invariant
            ofiles == store@.mediafiles,
            i <= store.mediafiles.len(),
            files_view(out@) == ofiles.take(i as int).filter(pred),
        decreases store.mediafiles.len() - i,
    {
        let f = &store.mediafiles[i];
        proof {
            lemma_filter_take_step(ofiles, i as int, pred);
        }
        if f.library_id == id && f.media_id.is_none() {
            out.push(clone_mediafile(f));
            proof {
                assert(files_view(out@) =~= ofiles.take(i as int).filter(pred).push(
                    ofiles[i as int],
                ));
            }
        }
        proof {
            assert(files_view(out@) == ofiles.take(i as int + 1).filter(pred));
        }
        i += 1;
    }
    proof {
        assert(ofiles.take(ofiles.len() as int) =~= ofiles);
    }
    out
}

/// Holds of the catalog records listed for library `id` (episodes are
/// listed under their show, not here).
pub open spec fn media_in(id: int) -> spec_fn(MediaView) -> bool {
    |m: MediaView| m.library_id == id && !m.episode
}

#[verifier::loop_isolation(false)]
fn sort_libs(input: Vec<Library>) -> (r: Vec<Library>)
    ensures
        libs_sorted(libs_view(r@)),
        libs_view(r@).to_multiset() == libs_view(input@).to_multiset(),
{
    broadcast use vstd::seq_lib::group_to_multiset_ensures;

    let ghost orig = libs_view(input@);
    let mut src = input;
    let mut out: Vec<Library> = Vec::new();
    proof {
        assert(libs_view(out@) =~= Seq::<LibraryView>::empty());
        assert(libs_view(out@).to_multiset().add(libs_view(src@).to_multiset())
            =~= orig.to_multiset());
    }
    while src.len() > 0
        invariant
            libs_view(out@).to_multiset().add(libs_view(src@).to_multiset())
                == orig.to_multiset(),
            libs_sorted(libs_view(out@)),
            forall|a: int, b: int|
                0 <= a < out@.len() && 0 <= b < src@.len() ==> lex_le(
                    libs_view(out@)[a].name,
                    libs_view(src@)[b].name,
                ),
        decreases src.len(),
    {
        let mut min: usize = 0;
        let mut k: usize = 1;
        proof {
            lemma_lex_total(libs_view(src@)[0].name, libs_view(src@)[0].name);
        }
        while k < src.len()
            invariant
                src.len() > 0,
                min < src.len(),
                k <= src.len(),
                forall|j: int|
                    0 <= j < k ==> lex_le(libs_view(src@)[min as int].name, libs_view(src@)[j].name),
        decreases src.len() - k,
        {
            if str_lex_le(src[k].name.as_str(), src[min].name.as_str()) {
                proof {
                    assert forall|j: int|
                        0 <= j < k + 1 implies lex_le(
                        libs_view(src@)[k as int].name,
                        libs_view(src@)[j].name,
                    ) by {
                        if j < k {
                            lemma_lex_trans(
                                libs_view(src@)[k as int].name,
                                libs_view(src@)[min as int].name,
                                libs_view(src@)[j].name,
                            );
                        } else if j == k {
                            lemma_lex_total(
                                libs_view(src@)[k as int].name,
                                libs_view(src@)[k as int].name,
                            );
                        }
                    }
                }
                min = k;
            } else {
                proof {
                    lemma_lex_total(
                        libs_view(src@)[min as int].name,
                        libs_view(src@)[k as int].name,
                    );
                }
            }
            k += 1;
        }
        let ghost pre = libs_view(src@);
        let ghost xv = pre[min as int];
        let x = src.remove(min);
        proof {
            assert(x@ == xv);
            assert(libs_view(src@) =~= pre.remove(min as int));
            assert(pre.remove(min as int).to_multiset() =~= pre.to_multiset().remove(xv));
            assert(pre.to_multiset().contains(xv));
        }
        let ghost outpre = libs_view(out@);
        out.push(x);
        proof {
            assert(libs_view(out@) =~= outpre.push(xv));
            assert(outpre.push(xv).to_multiset() =~= outpre.to_multiset().insert(xv));
            assert(libs_view(out@).to_multiset().add(libs_view(src@).to_multiset())
                =~= orig.to_multiset());
            assert forall|a: int, b: int|
                0 <= a < out@.len() && 0 <= b < src@.len() implies lex_le(
                libs_view(out@)[a].name,
                libs_view(src@)[b].name,
            ) by {
                assert(libs_view(src@)[b] == if b < min { pre[b] } else { pre[b + 1] });
                if a < out@.len() - 1 {
                    assert(libs_view(out@)[a] == outpre[a]);
                } else {
                    assert(libs_view(out@)[a] == xv);
                }
            }
            assert(libs_sorted(libs_view(out@)));
        }
    }
    proof {
        assert(libs_view(src@) =~= Seq::<LibraryView>::empty());
        assert(libs_view(src@).to_multiset().len() == 0);
        assert(libs_view(out@).to_multiset().add(libs_view(src@).to_multiset())
            =~= libs_view(out@).to_multiset());
    }
    out
}

#[verifier::loop_isolation(false)]
fn sort_media(input: Vec<Media>) -> (r: Vec<Media>)
    ensures
        media_sorted(media_view(r@)),
        media_view(r@).to_multiset() == media_view(input@).to_multiset(),
{
    broadcast use vstd::seq_lib::group_to_multiset_ensures;

    let ghost orig = media_view(input@);
    let mut src = input;
    let mut out: Vec<Media> = Vec::new();
    proof {
        assert(media_view(out@) =~= Seq::<MediaView>::empty());
        assert(media_view(out@).to_multiset().add(media_view(src@).to_multiset())
            =~= orig.to_multiset());
    }
    while src.len() > 0
        invariant
            media_view(out@).to_multiset().add(media_view(src@).to_multiset())
                == orig.to_multiset(),
            media_sorted(media_view(out@)),
            forall|a: int, b: int|
                0 <= a < out@.len() && 0 <= b < src@.len() ==> lex_le(
                    media_view(out@)[a].name,
                    media_view(src@)[b].name,
                ),
        decreases src.len(),
    {
        let mut min: usize = 0;
        let mut k: usize = 1;
        proof {
            lemma_lex_total(media_view(src@)[0].name, media_view(src@)[0].name);
        }
        while k < src.len()
            invariant
                src.len() > 0,
                min < src.len(),
                k <= src.len(),
                forall|j: int|
                    0 <= j < k ==> lex_le(
                        media_view(src@)[min as int].name,
                        media_view(src@)[j].name,
                    ),
        decreases src.len() - k,
        {
            if str_lex_le(src[k].name.as_str(), src[min].name.as_str()) {
                proof {
                    assert forall|j: int|
                        0 <= j < k + 1 implies lex_le(
                        media_view(src@)[k as int].name,
                        media_view(src@)[j].name,
                    ) by {
                        if j < k {
                            lemma_lex_trans(
                                media_view(src@)[k as int].name,
                                media_view(src@)[min as int].name,
                                media_view(src@)[j].name,
                            );
                        } else if j == k {
                            lemma_lex_total(
                                media_view(src@)[k as int].name,
                                media_view(src@)[k as int].name,
                            );
                        }
                    }
                }
                min = k;
            } else {
                proof {
                    lemma_lex_total(
                        media_view(src@)[min as int].name,
                        media_view(src@)[k as int].name,
                    );
                }
            }
            k += 1;
        }
        let ghost pre = media_view(src@);
        let ghost xv = pre[min as int];
        let x = src.remove(min);
        proof {
            assert(x@ == xv);
            assert(media_view(src@) =~= pre.remove(min as int));
            assert(pre.remove(min as int).to_multiset() =~= pre.to_multiset().remove(xv));
            assert(pre.to_multiset().contains(xv));
        }
        let ghost outpre = media_view(out@);
        out.push(x);
        proof {
            assert(media_view(out@) =~= outpre.push(xv));
            assert(outpre.push(xv).to_multiset() =~= outpre.to_multiset().insert(xv));
            assert(media_view(out@).to_multiset().add(media_view(src@).to_multiset())
                =~= orig.to_multiset());
            assert forall|a: int, b: int|
                0 <= a < out@.len() && 0 <= b < src@.len() implies lex_le(
                media_view(out@)[a].name,
                media_view(src@)[b].name,
            ) by {
                assert(media_view(src@)[b] == if b < min { pre[b] } else { pre[b + 1] });
                if a < out@.len() - 1 {
                    assert(media_view(out@)[a] == outpre[a]);
                } else {
                    assert(media_view(out@)[a] == xv);
                }
            }
            assert(media_sorted(media_view(out@)));
        }
    }
    proof {
        assert(media_view(src@) =~= Seq::<MediaView>::empty());
        assert(media_view(src@).to_multiset().len() == 0);
        assert(media_view(out@).to_multiset().add(media_view(src@).to_multiset())
            =~= media_view(out@).to_multiset());
    }
    out
}

/// Lists the visible libraries, ordered by name. Hidden rows are
/// excluded the moment the hide committed, whether or not the cascade
/// has run.
#[verifier::loop_isolation(false)]
pub fn library_get(store: &Store) -> (r: Vec<Library>)
    ensures
        libs_sorted(libs_view(r@)),
        libs_view(r@).to_multiset() == visible_libs(store@).to_multiset(),
{
    let ghost olibs = store@.libraries;
    let ghost pred = lib_visible();
    let mut vis: Vec<Library> = Vec::new();
    let mut i: usize = 0;
    proof {
        reveal_with_fuel(Seq::filter, 1);
        assert(olibs.take(0) =~= Seq::<LibraryView>::empty());
        assert(Seq::<LibraryView>::empty().filter(pred) =~= Seq::<LibraryView>::empty());
        assert(libs_view(vis@) =~= Seq::<LibraryView>::empty());
    }
    while i < store.libraries.len()
        invariant
            i <= store.libraries.len(),
            libs_view(vis@) == olibs.take(i as int).filter(pred),
        decreases store.libraries.len() - i,
    {
        let l = &store.libraries[i];
        proof {
            lemma_filter_take_step(olibs, i as int, pred);
        }
        if !l.hidden {
            vis.push(clone_library(l));
            proof {
                assert(libs_view(vis@) =~= olibs.take(i as int).filter(pred).push(olibs[i as int]));
            }
        }
        i += 1;
    }
    proof {
        assert(olibs.take(olibs.len() as int) =~= olibs);
    }
    sort_libs(vis)
}

/// Creates a resource: appends an active library row under a fresh id,
/// and announces it to subscribers. The scan of the new library is an
/// external collaborator the caller hands the id to afterwards.
pub fn library_post(store: &mut Store, publisher: &mut Publisher, name: String) -> (r: i64)
    requires
        old(store)@.wf(),
        old(store)@.next_library_id < i64::MAX,
    ensures
        final(store)@.wf(),
        r == old(store)@.next_library_id,
        final(store)@.libraries == old(store)@.libraries.push(
            (LibraryView { id: r as int, name: name@, hidden: false }),
        ),
        final(store)@.media == old(store)@.media,
        final(store)@.mediafiles == old(store)@.mediafiles,
        final(store)@.users == old(store)@.users,
        final(store)@.invites == old(store)@.invites,
        final(store)@.next_library_id == old(store)@.next_library_id + 1,
        final(publisher)@.len() == old(publisher)@.len(),
        forall|i: int|
            0 <= i < old(publisher)@.len() ==> final(publisher)@[i] == offered(
                old(publisher)@[i],
                event_json(r as nat, false),
            ),
{
    let id = store.next_library_id;
    store.next_library_id = id + 1;
    let ghost olibs = old(store)@.libraries;
    store.libraries.push(Library { id, name, hidden: false });
    proof {
        assert(final(store)@.libraries =~= olibs.push(
            (LibraryView { id: id as int, name: final(store)@.libraries.last().name, hidden: false }),
        ));
        lemma_libs_wf_push(
            olibs,
            old(store)@.next_library_id,
            final(store)@.libraries.last(),
        );
    }
    publisher.publish(
        LifecycleEvent { resource_id: id, event_type: LifecycleEventType::Created },
    );
    id
}

/// Deletes a resource as the caller sees it: flags it hidden inside the
/// writer transaction and announces the removal. The physical cascade is
/// handed to the detached worker afterwards; a second delete of the same
/// id reports the resource as absent rather than succeeding again.
pub fn library_delete(store: &mut Store, publisher: &mut Publisher, id: i64) -> (r: Result<
    (),
    CoreError,
>)
    requires
        old(store)@.wf(),
    ensures
        final(store)@.wf(),
        r is Ok <==> old(store)@.has_visible_lib(id as int),
        r is Err ==> r == Err::<(), CoreError>(CoreError::NotFound) && final(store)@
            == old(store)@ && final(publisher)@ == old(publisher)@,
        final(store)@.libraries.len() == old(store)@.libraries.len(),
        forall|i: int|
            0 <= i < old(store)@.libraries.len() ==> final(store)@.libraries[i] == hide_one(
                old(store)@.libraries[i],
                id as int,
            ),
        final(store)@.media == old(store)@.media,
        final(store)@.mediafiles == old(store)@.mediafiles,
        final(store)@.users == old(store)@.users,
        final(store)@.invites == old(store)@.invites,
        final(store)@.next_library_id == old(store)@.next_library_id,
        !final(store)@.has_visible_lib(id as int),
        r is Ok ==> final(publisher)@.len() == old(publisher)@.len() && (forall|i: int|
            0 <= i < old(publisher)@.len() ==> final(publisher)@[i] == offered(
                old(publisher)@[i],
                event_json(id as nat, true),
            )),
{
    let n = mark_hidden(store, id);
    if n < 1 {
        proof {
            assert forall|i: int|
                0 <= i < old(store)@.libraries.len() implies final(store)@.libraries[i]
                == old(store)@.libraries[i] by {
                assert(final(store)@.libraries[i] == hide_one(old(store)@.libraries[i], id as int));
            }
            assert(final(store)@.libraries =~= old(store)@.libraries);
            assert(final(store)@ =~= old(store)@);
        }
        return Err(CoreError::NotFound);
    }
    proof {
        let k = choose|k: int|
            0 <= k < old(store)@.libraries.len() && #[trigger] old(store)@.libraries[k].id
                == id as int && !old(store)@.libraries[k].hidden;
        assert(1 <= old(store)@.libraries[k].id);
        assert(id >= 1);
    }
    publisher.publish(LifecycleEvent { resource_id: id, event_type: LifecycleEventType::Removed });
    Ok(())
}

/// Lists the catalog records of one visible library, grouped under the
/// library name and ordered by record name.
#[verifier::loop_isolation(false)]
pub fn get_all_library(store: &Store, id: i64) -> (r: Result<(String, Vec<Media>), CoreError>)
    requires
        store@.wf(),
    ensures
        r is Ok <==> store@.has_visible_lib(id as int),
        r is Err ==> r == Err::<(String, Vec<Media>), CoreError>(CoreError::NotFound),
        r is Ok ==> forall|i: int|
            0 <= i < store@.libraries.len() && #[trigger] store@.libraries[i].id == id as int
                && !store@.libraries[i].hidden ==> r.unwrap().0@ == store@.libraries[i].name,
        r is Ok ==> media_sorted(media_view(r.unwrap().1@)),
        r is Ok ==> media_view(r.unwrap().1@).to_multiset() == store@.media.filter(
            media_in(id as int),
        ).to_multiset(),
{
    let lib = match get_self(store, id) {
        Ok(l) => l,
        Err(e) => {
            return Err(CoreError::NotFound);
        },
    };
    let ghost omedia = store@.media;
    let ghost pred = media_in(id as int);
    let mut records: Vec<Media> = Vec::new();
    let mut i: usize = 0;
    proof {
        reveal_with_fuel(Seq::filter, 1);
        assert(omedia.take(0) =~= Seq::<MediaView>::empty());
        assert(Seq::<MediaView>::empty().filter(pred) =~= Seq::<MediaView>::empty());
        assert(media_view(records@) =~= Seq::<MediaView>::empty());
    }
    while i < store.media.len()
        invariant
            i <= store.media.len(),
            media_view(records@) == omedia.take(i as int).filter(pred),
        decreases store.media.len() - i,
    {
        let m = &store.media[i];
        proof {
            lemma_filter_take_step(omedia, i as int, pred);
        }
        if m.library_id == id && !m.episode {
            records.push(clone_media(m));
            proof {
                assert(media_view(records@) =~= omedia.take(i as int).filter(pred).push(
                    omedia[i as int],
                ));
            }
        }
        i += 1;
    }
    proof {
        assert(omedia.take(omedia.len() as int) =~= omedia);
    }
    let sorted = sort_media(records);
    Ok((lib.name, sorted))
}

/// The per-row effect of `mark_hidden(id)` as a mapping.
pub open spec fn hide_map(id: int) -> spec_fn(LibraryView) -> LibraryView {
    |l: LibraryView| hide_one(l, id)
}

/// The store `mark_hidden(id)` leaves behind.
pub open spec fn mark_hidden_post(s: StoreView, id: int) -> StoreView {
    StoreView { libraries: s.libraries.map_values(hide_map(id)), ..s }
}

/// What `mark_hidden(id)` reports: one row transitioned, or zero.
pub open spec fn mark_hidden_result(s: StoreView, id: int) -> int {
    if s.has_visible_lib(id) {
        1int
    } else {
        0int
    }
}

/// The sum of what `n` successive `mark_hidden(id)` calls report.
pub open spec fn hide_results_total(s: StoreView, id: int, n: nat) -> int
    decreases n,
{
    if n == 0 {
        0int
    } else {
        mark_hidden_result(s, id) + hide_results_total(mark_hidden_post(s, id), id, (n - 1) as nat)
    }
}

/// Law: the hide transition fires exactly once. Across any number of
/// `mark_hidden(id)` calls, serialized by the single writer, their
/// reported counts sum to one when a visible row existed at the start
/// and to zero otherwise: one caller sees one, every other caller sees
/// zero.
pub proof fn lemma_mark_hidden_exactly_once(s: StoreView, id: int, n: nat)
    ensures
        hide_results_total(s, id, n) == if n > 0 && s.has_visible_lib(id) {
            1int
        } else {
            0int
        },
    decreases n,
{
    if n > 0 {
        let post = mark_hidden_post(s, id);
        assert forall|i: int|
            0 <= i < post.libraries.len() implies !((#[trigger] post.libraries[i].id) == id
            && !post.libraries[i].hidden) by {
            assert(post.libraries[i] == hide_map(id)(s.libraries[i]));
            assert(post.libraries[i] == hide_one(s.libraries[i], id));
        }
        assert(!post.has_visible_lib(id));
        lemma_mark_hidden_exactly_once(post, id, (n - 1) as nat);
    }
}

/// Law: deletion is observable at once. After the hide committed (no
/// visible row with `id` remains), the ordered listing excludes the
/// resource, and the dependent listing refuses the id, even though the
/// cascade has not yet run.
pub proof fn lemma_hidden_excluded_from_listing(s: StoreView, id: int)
    requires
        !s.has_visible_lib(id),
    ensures
        forall|i: int| 0 <= i < visible_libs(s).len() ==> (#[trigger] visible_libs(s)[i].id) != id,
{
    let pred = lib_visible();
    lemma_filter_membership(s.libraries, pred);
    assert forall|i: int|
        0 <= i < visible_libs(s).len() implies (#[trigger] visible_libs(s)[i].id) != id by {
        Seq::lemma_filter_pred(s.libraries, pred, i);
        assert(pred(visible_libs(s)[i]));
        assert(lib_visible()(visible_libs(s)[i]) == !visible_libs(s)[i].hidden);
        let j = choose|j: int| 0 <= j < s.libraries.len() && #[trigger] visible_libs(s)[i]
            == s.libraries[j];
        if s.libraries[j].id == id {
            assert(s.has_visible_lib(id));
        }
    }
}

} // verus!
