//! The logical backing store: the tables the core reads and mutates,
//! modelled as plain records. A storage adapter may persist them; the
//! core's contracts are stated over the mathematical view of this state.

use vstd::prelude::*;
use crate::settings::{UserSettings, UserSettingsView};

verus! {

/// A removable resource (a media library). Presence of the row plus the
/// `hidden` flag encodes the lifecycle; physical absence means deleted.
#[derive(Debug)]
pub struct Library {
    pub id: i64,
    pub name: String,
    pub hidden: bool,
}

/// Mathematical value of a library row.
#[verifier::ext_equal]
pub ghost struct LibraryView {
    pub id: int,
    pub name: Seq<char>,
    pub hidden: bool,
}

impl View for Library {
    type V = LibraryView;

    open spec fn view(&self) -> LibraryView {
        LibraryView { id: self.id as int, name: self.name@, hidden: self.hidden }
    }
}

/// A catalog entry (movie or show) referencing its library.
#[derive(Debug)]
pub struct Media {
    pub id: i64,
    pub library_id: i64,
    pub name: String,
    pub poster_path: Option<String>,
    pub episode: bool,
}

/// Mathematical value of a media row.
#[verifier::ext_equal]
pub ghost struct MediaView {
    pub id: int,
    pub library_id: int,
    pub name: Seq<char>,
    pub poster_path: Option<Seq<char>>,
    pub episode: bool,
}

impl View for Media {
    type V = MediaView;

    open spec fn view(&self) -> MediaView {
        MediaView {
            id: self.id as int,
            library_id: self.library_id as int,
            name: self.name@,
            poster_path: crate::settings::opt_str_view(self.poster_path),
            episode: self.episode,
        }
    }
}

/// A file on disk belonging to a library; unmatched while `media_id` is
/// absent.
#[derive(Debug)]
pub struct MediaFile {
    pub id: i64,
    pub library_id: i64,
    pub raw_name: String,
    pub duration: Option<i64>,
    pub target_file: String,
    pub media_id: Option<i64>,
}

/// Mathematical value of a media-file row.
#[verifier::ext_equal]
pub ghost struct MediaFileView {
    pub id: int,
    pub library_id: int,
    pub raw_name: Seq<char>,
    pub duration: Option<i64>,
    pub target_file: Seq<char>,
    pub media_id: Option<i64>,
}

impl View for MediaFile {
    type V = MediaFileView;

    open spec fn view(&self) -> MediaFileView {
        MediaFileView {
            id: self.id as int,
            library_id: self.library_id as int,
            raw_name: self.raw_name@,
            duration: self.duration,
            target_file: self.target_file@,
            media_id: self.media_id,
        }
    }
}

/// An account row. `claimed_invite` is the invite token consumed at
/// registration; a token is claimed exactly when some row holds it.
#[derive(Debug)]
pub struct UserRow {
    pub username: String,
    pub roles: Vec<String>,
    pub password: String,
    pub prefs: UserSettings,
    pub picture: Option<i64>,
    pub claimed_invite: String,
}

/// Mathematical value of an account row.
#[verifier::ext_equal]
pub ghost struct UserRowView {
    pub username: Seq<char>,
    pub roles: Seq<Seq<char>>,
    pub password: Seq<char>,
    pub prefs: UserSettingsView,
    pub picture: Option<i64>,
    pub claimed_invite: Seq<char>,
}

pub open spec fn roles_view(roles: Seq<String>) -> Seq<Seq<char>> {
    roles.map_values(|s: String| s@)
}

impl View for UserRow {
    type V = UserRowView;

    open spec fn view(&self) -> UserRowView {
        UserRowView {
            username: self.username@,
            roles: roles_view(self.roles@),
            password: self.password@,
            prefs: self.prefs@,
            picture: self.picture,
            claimed_invite: self.claimed_invite@,
        }
    }
}

/// A single-use invite token row.
#[derive(Debug)]
pub struct Invite {
    pub id: String,
    pub date_added: i64,
}

/// Mathematical value of an invite row.
#[verifier::ext_equal]
pub ghost struct InviteView {
    pub id: Seq<char>,
    pub date_added: i64,
}

impl View for Invite {
    type V = InviteView;

    open spec fn view(&self) -> InviteView {
        InviteView { id: self.id@, date_added: self.date_added }
    }
}

/// The whole logical store.
#[derive(Debug)]
pub struct Store {
    pub libraries: Vec<Library>,
    pub media: Vec<Media>,
    pub mediafiles: Vec<MediaFile>,
    pub users: Vec<UserRow>,
    pub invites: Vec<Invite>,
    /// The next library id handed out by an insert.
    pub next_library_id: i64,
}

/// Mathematical value of the store.
#[verifier::ext_equal]
pub ghost struct StoreView {
    pub libraries: Seq<LibraryView>,
    pub media: Seq<MediaView>,
    pub mediafiles: Seq<MediaFileView>,
    pub users: Seq<UserRowView>,
    pub invites: Seq<InviteView>,
    pub next_library_id: int,
}

pub open spec fn libs_view(v: Seq<Library>) -> Seq<LibraryView> {
    v.map_values(|l: Library| l@)
}

pub open spec fn media_view(v: Seq<Media>) -> Seq<MediaView> {
    v.map_values(|m: Media| m@)
}

pub open spec fn files_view(v: Seq<MediaFile>) -> Seq<MediaFileView> {
    v.map_values(|f: MediaFile| f@)
}

pub open spec fn users_view(v: Seq<UserRow>) -> Seq<UserRowView> {
    v.map_values(|u: UserRow| u@)
}

pub open spec fn invites_view(v: Seq<Invite>) -> Seq<InviteView> {
    v.map_values(|t: Invite| t@)
}

impl View for Store {
    type V = StoreView;

    open spec fn view(&self) -> StoreView {
        StoreView {
            libraries: libs_view(self.libraries@),
            media: media_view(self.media@),
            mediafiles: files_view(self.mediafiles@),
            users: users_view(self.users@),
            invites: invites_view(self.invites@),
            next_library_id: self.next_library_id as int,
        }
    }
}

/// Library rows carry unique ids, each at least one and below the id
/// counter, which itself stays within the machine range.
pub open spec fn libs_wf(libs: Seq<LibraryView>, next_library_id: int) -> bool {
    &&& forall|i: int, j: int| 0 <= i < j < libs.len() ==> libs[i].id != libs[j].id
    &&& forall|i: int| 0 <= i < libs.len() ==> 1 <= #[trigger] libs[i].id < next_library_id
    &&& 1 <= next_library_id <= i64::MAX
}

/// Account rows carry unique usernames.
pub open spec fn users_wf(users: Seq<UserRowView>) -> bool {
    forall|i: int, j: int| 0 <= i < j < users.len() ==> users[i].username != users[j].username
}

/// Invite rows carry unique token ids.
pub open spec fn invites_wf(invites: Seq<InviteView>) -> bool {
    forall|i: int, j: int| 0 <= i < j < invites.len() ==> invites[i].id != invites[j].id
}

impl StoreView {
    /// Library ids are unique and below the id counter; usernames and
    /// invite ids are unique.
    pub open spec fn wf(self) -> bool {
        &&& libs_wf(self.libraries, self.next_library_id)
        &&& users_wf(self.users)
        &&& invites_wf(self.invites)
    }

    /// Whether a library row with this id exists, hidden or not.
    pub open spec fn has_lib(self, id: int) -> bool {
        exists|i: int| 0 <= i < self.libraries.len() && #[trigger] self.libraries[i].id == id
    }

    /// Whether a visible (not hidden) library row with this id exists.
    pub open spec fn has_visible_lib(self, id: int) -> bool {
        exists|i: int|
            0 <= i < self.libraries.len() && #[trigger] self.libraries[i].id == id
                && !self.libraries[i].hidden
    }

    /// Whether some account row holds this username.
    pub open spec fn has_user(self, username: Seq<char>) -> bool {
        exists|i: int|
            0 <= i < self.users.len() && #[trigger] self.users[i].username == username
    }

    /// Whether an invite row with this token id exists.
    pub open spec fn has_invite(self, token: Seq<char>) -> bool {
        exists|i: int| 0 <= i < self.invites.len() && #[trigger] self.invites[i].id == token
    }

    /// Whether some account has claimed this token.
    pub open spec fn invite_claimed(self, token: Seq<char>) -> bool {
        exists|i: int|
            0 <= i < self.users.len() && #[trigger] self.users[i].claimed_invite == token
    }

    /// A token gates registration exactly while it exists and no account
    /// has claimed it.
    pub open spec fn invite_usable(self, token: Seq<char>) -> bool {
        self.has_invite(token) && !self.invite_claimed(token)
    }
}

impl Store {
    /// An empty store; the id counter starts at one.
    pub fn new() -> (r: Self)
        ensures
            r@.wf(),
            r@.libraries.len() == 0,
            r@.media.len() == 0,
            r@.mediafiles.len() == 0,
            r@.users.len() == 0,
            r@.invites.len() == 0,
            r@.next_library_id == 1,
    {
        let r = Store {
            libraries: Vec::new(),
            media: Vec::new(),
            mediafiles: Vec::new(),
            users: Vec::new(),
            invites: Vec::new(),
            next_library_id: 1,
        };
        proof {
            assert(r@.libraries =~= Seq::<LibraryView>::empty());
            assert(r@.media =~= Seq::<MediaView>::empty());
            assert(r@.mediafiles =~= Seq::<MediaFileView>::empty());
            assert(r@.users =~= Seq::<UserRowView>::empty());
            assert(r@.invites =~= Seq::<InviteView>::empty());
        }
        r
    }
}

pub(crate) fn clone_library(l: &Library) -> (r: Library)
    ensures
        r@ == l@,
{
    Library { id: l.id, name: l.name.clone(), hidden: l.hidden }
}

pub(crate) fn clone_media(m: &Media) -> (r: Media)
    ensures
        r@ == m@,
{
    let r = Media {
        id: m.id,
        library_id: m.library_id,
        name: m.name.clone(),
        poster_path: match &m.poster_path {
            Some(p) => Some(p.clone()),
            None => None,
        },
        episode: m.episode,
    };
    proof {
        assert(r@ =~= m@);
    }
    r
}

pub(crate) fn clone_mediafile(f: &MediaFile) -> (r: MediaFile)
    ensures
        r@ == f@,
{
    let r = MediaFile {
        id: f.id,
        library_id: f.library_id,
        raw_name: f.raw_name.clone(),
        duration: f.duration,
        target_file: f.target_file.clone(),
        media_id: f.media_id,
    };
    proof {
        assert(r@ =~= f@);
    }
    r
}

pub(crate) fn clone_roles(roles: &Vec<String>) -> (r: Vec<String>)
    ensures
        roles_view(r@) == roles_view(roles@),
{
    let mut out: Vec<String> = Vec::new();
    let mut i: usize = 0;
    while i < roles.len()
        invariant
            i <= roles.len(),
            out.len() == i,
            forall|j: int| 0 <= j < i ==> out@[j]@ == roles@[j]@,
        decreases roles.len() - i,
    {
        out.push(roles[i].clone());
        i += 1;
    }
    proof {
        assert(roles_view(out@) =~= roles_view(roles@));
    }
    out
}

pub(crate) fn clone_user_row(u: &UserRow) -> (r: UserRow)
    ensures
        r@ == u@,
{
    let r = UserRow {
        username: u.username.clone(),
        roles: clone_roles(&u.roles),
        password: u.password.clone(),
        prefs: u.prefs.duplicate(),
        picture: u.picture,
        claimed_invite: u.claimed_invite.clone(),
    };
    proof {
        assert(r@ =~= u@);
    }
    r
}

pub(crate) fn clone_invite(t: &Invite) -> (r: Invite)
    ensures
        r@ == t@,
{
    Invite { id: t.id.clone(), date_added: t.date_added }
}

impl Store {
    /// A copy of the store with the same mathematical value: the snapshot
    /// a writer transaction works on until it commits.
    pub fn duplicate(&self) -> (r: Store)
        ensures
            r@ == self@,
    {
        let mut libraries: Vec<Library> = Vec::new();
        let mut i: usize = 0;
        while i < self.libraries.len()
            invariant
                i <= self.libraries.len(),
                libraries.len() == i,
                forall|j: int| 0 <= j < i ==> libraries@[j]@ == self.libraries@[j]@,
            decreases self.libraries.len() - i,
        {
            libraries.push(clone_library(&self.libraries[i]));
            i += 1;
        }
        let mut media: Vec<Media> = Vec::new();
        let mut i: usize = 0;
        while i < self.media.len()
            invariant
                i <= self.media.len(),
                media.len() == i,
                forall|j: int| 0 <= j < i ==> media@[j]@ == self.media@[j]@,
            decreases self.media.len() - i,
        {
            media.push(clone_media(&self.media[i]));
            i += 1;
        }
        let mut mediafiles: Vec<MediaFile> = Vec::new();
        let mut i: usize = 0;
        while i < self.mediafiles.len()
            invariant
                i <= self.mediafiles.len(),
                mediafiles.len() == i,
                forall|j: int| 0 <= j < i ==> mediafiles@[j]@ == self.mediafiles@[j]@,
            decreases self.mediafiles.len() - i,
        {
            mediafiles.push(clone_mediafile(&self.mediafiles[i]));
            i += 1;
        }
        let mut users: Vec<UserRow> = Vec::new();
        let mut i: usize = 0;
        while i < self.users.len()
            invariant
                i <= self.users.len(),
                users.len() == i,
                forall|j: int| 0 <= j < i ==> users@[j]@ == self.users@[j]@,
            decreases self.users.len() - i,
        {
            users.push(clone_user_row(&self.users[i]));
            i += 1;
        }
        let mut invites: Vec<Invite> = Vec::new();
        let mut i: usize = 0;
        while i < self.invites.len()
            invariant
                i <= self.invites.len(),
                invites.len() == i,
                forall|j: int| 0 <= j < i ==> invites@[j]@ == self.invites@[j]@,
            decreases self.invites.len() - i,
        {
            invites.push(clone_invite(&self.invites[i]));
            i += 1;
        }
        let r = Store {
            libraries,
            media,
            mediafiles,
            users,
            invites,
            next_library_id: self.next_library_id,
        };
        proof {
            assert(r@.libraries =~= self@.libraries);
            assert(r@.media =~= self@.media);
            assert(r@.mediafiles =~= self@.mediafiles);
            assert(r@.users =~= self@.users);
            assert(r@.invites =~= self@.invites);
            assert(r@ =~= self@);
        }
        r
    }
}

/// Extending a prefix by one element extends its filtered image by that
/// element exactly when the element passes the predicate.
pub proof fn lemma_filter_take_step<A>(s: Seq<A>, i: int, pred: spec_fn(A) -> bool)
    requires
        0 <= i < s.len(),
    ensures
        s.take(i + 1).filter(pred) == if pred(s[i]) {
            s.take(i).filter(pred).push(s[i])
        } else {
            s.take(i).filter(pred)
        },
{
    reveal_with_fuel(Seq::filter, 2);
    assert(s.take(i + 1) =~= s.take(i) + seq![s[i]]);
    Seq::<A>::filter_distributes_over_add(s.take(i), seq![s[i]], pred);
    assert(seq![s[i]].drop_last() =~= Seq::<A>::empty());
    assert(seq![s[i]].last() == s[i]);
    assert(Seq::<A>::empty().filter(pred) =~= Seq::<A>::empty());
    if pred(s[i]) {
        assert(seq![s[i]].filter(pred) =~= seq![s[i]]);
        assert(s.take(i).filter(pred) + seq![s[i]] =~= s.take(i).filter(pred).push(s[i]));
    } else {
        assert(seq![s[i]].filter(pred) =~= Seq::<A>::empty());
        assert(s.take(i).filter(pred) + Seq::<A>::empty() =~= s.take(i).filter(pred));
    }
}

/// Every element of a filtered sequence occurs in the original.
pub proof fn lemma_filter_membership<A>(s: Seq<A>, pred: spec_fn(A) -> bool)
    ensures
        forall|i: int|
            0 <= i < s.filter(pred).len() ==> exists|j: int|
                0 <= j < s.len() && #[trigger] s.filter(pred)[i] == s[j],
    decreases s.len(),
{
    reveal_with_fuel(Seq::filter, 1);
    if s.len() > 0 {
        let d = s.drop_last();
        lemma_filter_membership(d, pred);
        assert forall|i: int| 0 <= i < s.filter(pred).len() implies exists|j: int|
            0 <= j < s.len() && #[trigger] s.filter(pred)[i] == s[j] by {
            if i < d.filter(pred).len() {
                let j = choose|j: int| 0 <= j < d.len() && d.filter(pred)[i] == d[j];
                assert(s[j] == d[j]);
                assert(s.filter(pred)[i] == s[j]);
            } else {
                assert(pred(s.last()));
                assert(s.filter(pred)[i] == s.last());
                assert(s.filter(pred)[i] == s[s.len() - 1]);
            }
        }
    }
}

/// A filter whose predicate holds everywhere keeps the sequence whole.
pub proof fn lemma_filter_all<A>(s: Seq<A>, pred: spec_fn(A) -> bool)
    requires
        forall|i: int| 0 <= i < s.len() ==> pred(#[trigger] s[i]),
    ensures
        s.filter(pred) == s,
    decreases s.len(),
{
    reveal_with_fuel(Seq::filter, 1);
    if s.len() > 0 {
        let d = s.drop_last();
        assert forall|i: int| 0 <= i < d.len() implies pred(#[trigger] d[i]) by {
            assert(d[i] == s[i]);
        }
        lemma_filter_all(d, pred);
        assert(pred(s.last()));
        assert(d.push(s.last()) =~= s);
    }
}

/// Filtering keeps pairwise-distinct keys pairwise distinct.
pub proof fn lemma_filter_distinct_keys<A, K>(
    s: Seq<A>,
    pred: spec_fn(A) -> bool,
    key: spec_fn(A) -> K,
)
    requires
        forall|i: int, j: int| 0 <= i < j < s.len() ==> key(s[i]) != key(s[j]),
    ensures
        forall|i: int, j: int|
            0 <= i < j < s.filter(pred).len() ==> key(s.filter(pred)[i]) != key(s.filter(pred)[j]),
    decreases s.len(),
{
    reveal_with_fuel(Seq::filter, 1);
    if s.len() > 0 {
        let d = s.drop_last();
        assert forall|i: int, j: int| 0 <= i < j < d.len() implies key(d[i]) != key(d[j]) by {
            assert(d[i] == s[i] && d[j] == s[j]);
        }
        lemma_filter_distinct_keys(d, pred, key);
        lemma_filter_membership(d, pred);
        if pred(s.last()) {
            assert forall|i: int, j: int|
                0 <= i < j < s.filter(pred).len() implies key(s.filter(pred)[i]) != key(
                s.filter(pred)[j],
            ) by {
                if j < s.filter(pred).len() - 1 {
                    assert(s.filter(pred)[i] == d.filter(pred)[i]);
                    assert(s.filter(pred)[j] == d.filter(pred)[j]);
                } else {
                    assert(s.filter(pred)[j] == s.last());
                    assert(s.filter(pred)[i] == d.filter(pred)[i]);
                    let k = choose|k: int| 0 <= k < d.len() && d.filter(pred)[i] == d[k];
                    assert(d[k] == s[k]);
                    assert(key(s[k]) != key(s[s.len() - 1]));
                }
            }
        }
    }
}

/// Library-table well-formedness carries to rows with the same ids.
pub proof fn lemma_libs_wf_same_ids(a: Seq<LibraryView>, b: Seq<LibraryView>, next: int)
    requires
        libs_wf(a, next),
        b.len() == a.len(),
        forall|i: int| 0 <= i < b.len() ==> #[trigger] b[i].id == a[i].id,
    ensures
        libs_wf(b, next),
{
    assert forall|i: int, j: int| 0 <= i < j < b.len() implies b[i].id != b[j].id by {
        assert(a[i].id != a[j].id);
    }
    assert forall|i: int| 0 <= i < b.len() implies 1 <= (#[trigger] b[i].id) < next by {
        assert(1 <= a[i].id < next);
    }
}

/// Account-table well-formedness carries to rows with the same names.
pub proof fn lemma_users_wf_same_names(a: Seq<UserRowView>, b: Seq<UserRowView>)
    requires
        users_wf(a),
        b.len() == a.len(),
        forall|i: int| 0 <= i < b.len() ==> #[trigger] b[i].username == a[i].username,
    ensures
        users_wf(b),
{
    assert forall|i: int, j: int| 0 <= i < j < b.len() implies b[i].username != b[j].username by {
        assert(a[i].username != a[j].username);
    }
}

/// Appending a row under the fresh counter id keeps the library table
/// well-formed for the bumped counter.
pub proof fn lemma_libs_wf_push(libs: Seq<LibraryView>, next: int, l: LibraryView)
    requires
        libs_wf(libs, next),
        l.id == next,
        next < i64::MAX,
    ensures
        libs_wf(libs.push(l), next + 1),
{
    let b = libs.push(l);
    assert forall|i: int, j: int| 0 <= i < j < b.len() implies b[i].id != b[j].id by {
        if j < b.len() - 1 {
            assert(libs[i].id != libs[j].id);
        } else {
            assert(b[i] == libs[i]);
            assert(libs[i].id < next);
        }
    }
    assert forall|i: int| 0 <= i < b.len() implies 1 <= (#[trigger] b[i].id) < next + 1 by {
        if i < b.len() - 1 {
            assert(b[i] == libs[i]);
            assert(1 <= libs[i].id < next);
        }
    }
}

/// Appending a row with an unused username keeps the account table
/// well-formed.
pub proof fn lemma_users_wf_push(users: Seq<UserRowView>, row: UserRowView)
    requires
        users_wf(users),
        forall|i: int| 0 <= i < users.len() ==> (#[trigger] users[i].username) != row.username,
    ensures
        users_wf(users.push(row)),
{
    let b = users.push(row);
    assert forall|i: int, j: int| 0 <= i < j < b.len() implies b[i].username != b[j].username by {
        if j < b.len() - 1 {
            assert(users[i].username != users[j].username);
        } else {
            assert(b[i] == users[i]);
        }
    }
}

/// Appending a row with an unused token id keeps the invite table
/// well-formed.
pub proof fn lemma_invites_wf_push(invites: Seq<InviteView>, row: InviteView)
    requires
        invites_wf(invites),
        forall|i: int| 0 <= i < invites.len() ==> (#[trigger] invites[i].id) != row.id,
    ensures
        invites_wf(invites.push(row)),
{
    let b = invites.push(row);
    assert forall|i: int, j: int| 0 <= i < j < b.len() implies b[i].id != b[j].id by {
        if j < b.len() - 1 {
            assert(invites[i].id != invites[j].id);
        } else {
            assert(b[i] == invites[i]);
        }
    }
}

/// Any filter of a well-formed library table is well-formed for the
/// same counter.
pub proof fn lemma_libs_wf_filter(
    libs: Seq<LibraryView>,
    next: int,
    pred: spec_fn(LibraryView) -> bool,
)
    requires
        libs_wf(libs, next),
    ensures
        libs_wf(libs.filter(pred), next),
{
    let key = |l: LibraryView| l.id;
    let f = libs.filter(pred);
    lemma_filter_distinct_keys(libs, pred, key);
    assert forall|i: int, j: int| 0 <= i < j < f.len() implies f[i].id != f[j].id by {
        assert(key(f[i]) == f[i].id);
        assert(key(f[j]) == f[j].id);
    }
    lemma_filter_membership(libs, pred);
    assert forall|i: int| 0 <= i < f.len() implies 1 <= (#[trigger] f[i].id) < next by {
        let j = choose|j: int| 0 <= j < libs.len() && #[trigger] f[i] == libs[j];
        assert(1 <= libs[j].id < next);
    }
}

/// Any filter of a well-formed account table is well-formed.
pub proof fn lemma_users_wf_filter(users: Seq<UserRowView>, pred: spec_fn(UserRowView) -> bool)
    requires
        users_wf(users),
    ensures
        users_wf(users.filter(pred)),
{
    let key = |u: UserRowView| u.username;
    let f = users.filter(pred);
    lemma_filter_distinct_keys(users, pred, key);
    assert forall|i: int, j: int| 0 <= i < j < f.len() implies f[i].username != f[j].username by {
        assert(key(f[i]) == f[i].username);
        assert(key(f[j]) == f[j].username);
    }
}

/// Any filter of a well-formed invite table is well-formed.
pub proof fn lemma_invites_wf_filter(invites: Seq<InviteView>, pred: spec_fn(InviteView) -> bool)
    requires
        invites_wf(invites),
    ensures
        invites_wf(invites.filter(pred)),
{
    let key = |t: InviteView| t.id;
    let f = invites.filter(pred);
    lemma_filter_distinct_keys(invites, pred, key);
    assert forall|i: int, j: int| 0 <= i < j < f.len() implies f[i].id != f[j].id by {
        assert(key(f[i]) == f[i].id);
        assert(key(f[j]) == f[j].id);
    }
}

} // verus!
