use vstd::prelude::*;
use crate::AppError;
use crate::store::{lookup, spec_upsert, PrefEvent, PrefMap};
use crate::text::{is_blank, is_ws_char, str_eq, str_is_blank};
use crate::value::{PrefValue, ValModel};

verus! {

/// The stored user profile. The creation time never changes once set.
pub struct ProfileUser {
    pub full_name: String,
    pub username: String,
    pub email: String,
    pub created_at: i64,
}

/// Streak and goal counters. The longest streak never falls below the
/// current one.
pub struct Progress {
    pub current_streak: u32,
    pub longest_streak: u32,
    pub daily_goal: u32,
}

/// Application metadata, regenerated whole on every refresh.
pub struct AppMeta {
    pub version: String,
    pub platform: String,
    pub last_opened: i64,
}

/// The aggregate handed to the front-end.
pub struct ProfileData {
    pub profile_user: ProfileUser,
    pub progress: Progress,
    pub app_meta: AppMeta,
}

/// The stored shape of a profile.
pub open spec fn profile_model(
    full_name: Seq<char>,
    username: Seq<char>,
    email: Seq<char>,
    created_at: int,
) -> ValModel {
    ValModel::Obj(
        seq![
            ("fullName"@, ValModel::Str(full_name)),
            ("username"@, ValModel::Str(username)),
            ("email"@, ValModel::Str(email)),
            ("createdAt"@, ValModel::Num(created_at)),
        ],
    )
}

/// The stored shape of the progress counters.
pub open spec fn progress_model(cur: int, lon: int, goal: int) -> ValModel {
    ValModel::Obj(
        seq![
            ("currentStreak"@, ValModel::Num(cur)),
            ("longestStreak"@, ValModel::Num(lon)),
            ("dailyGoal"@, ValModel::Num(goal)),
        ],
    )
}

/// The stored shape of the application metadata.
pub open spec fn meta_model(version: Seq<char>, platform: Seq<char>, last_opened: int) -> ValModel {
    ValModel::Obj(
        seq![
            ("version"@, ValModel::Str(version)),
            ("platform"@, ValModel::Str(platform)),
            ("lastOpened"@, ValModel::Num(last_opened)),
        ],
    )
}

/// What a stored value says as a profile: its four fields, or nothing when a
/// field is missing, of the wrong shape, or out of range.
pub open spec fn spec_profile_of(m: ValModel) -> Option<(Seq<char>, Seq<char>, Seq<char>, int)> {
    match m {
        ValModel::Obj(fs) => {
            match (lookup(fs, "fullName"@), lookup(fs, "username"@), lookup(fs, "email"@), lookup(fs, "createdAt"@)) {
                (Some(ValModel::Str(f)), Some(ValModel::Str(u)), Some(ValModel::Str(e)), Some(ValModel::Num(c))) => {
                    if i64::MIN <= c <= i64::MAX {
                        Some((f, u, e, c))
                    } else {
                        None
                    }
                },
                _ => None,
            }
        },
        _ => None,
    }
}

/// What a stored value says as progress counters.
pub open spec fn spec_progress_of(m: ValModel) -> Option<(int, int, int)> {
    match m {
        ValModel::Obj(fs) => {
            match (lookup(fs, "currentStreak"@), lookup(fs, "longestStreak"@), lookup(fs, "dailyGoal"@)) {
                (Some(ValModel::Num(c)), Some(ValModel::Num(l)), Some(ValModel::Num(g))) => {
                    if 0 <= c <= u32::MAX && 0 <= l <= u32::MAX && 0 <= g <= u32::MAX {
                        Some((c, l, g))
                    } else {
                        None
                    }
                },
                _ => None,
            }
        },
        _ => None,
    }
}

/// What a stored value says as application metadata.
pub open spec fn spec_meta_of(m: ValModel) -> Option<(Seq<char>, Seq<char>, int)> {
    match m {
        ValModel::Obj(fs) => {
            match (lookup(fs, "version"@), lookup(fs, "platform"@), lookup(fs, "lastOpened"@)) {
                (Some(ValModel::Str(v)), Some(ValModel::Str(p)), Some(ValModel::Num(o))) => {
                    if i64::MIN <= o <= i64::MAX {
                        Some((v, p, o))
                    } else {
                        None
                    }
                },
                _ => None,
            }
        },
        _ => None,
    }
}

/// The progress the store holds under `progress`, with the documented
/// defaults where the entry is absent or unreadable.
pub open spec fn spec_progress_at(s: Seq<(Seq<char>, ValModel)>) -> (int, int, int) {
    match lookup(s, "progress"@) {
        Some(m) => match spec_progress_of(m) {
            Some(p) => p,
            None => (0, 0, 10),
        },
        None => (0, 0, 10),
    }
}

/// Whole days from `created` to `now`, never negative, capped at the largest
/// representable count.
pub open spec fn spec_days_since(created: int, now: int) -> int {
    if now <= created {
        0
    } else if (now - created) / 86400 > u32::MAX {
        u32::MAX as int
    } else {
        (now - created) / 86400
    }
}

/// The progress counters after a partial update: each given field replaces
/// the stored one, a given current streak raises the longest to match, and
/// the longest never ends below the current.
pub open spec fn spec_apply_progress(
    stored: (int, int, int),
    cur: Option<u32>,
    lon: Option<u32>,
    goal: Option<u32>,
) -> (int, int, int) {
    let c1 = if cur is Some { cur->0 as int } else { stored.0 };
    let l1 = if cur is Some && cur->0 as int > stored.1 { cur->0 as int } else { stored.1 };
    let l2 = if lon is Some { lon->0 as int } else { l1 };
    let g1 = if goal is Some { goal->0 as int } else { stored.2 };
    let l3 = if l2 < c1 { c1 } else { l2 };
    (c1, l3, g1)
}

/// After any partial update the longest streak is at least the current one.
pub proof fn lemma_progress_update_keeps_invariant(
    stored: (int, int, int),
    cur: Option<u32>,
    lon: Option<u32>,
    goal: Option<u32>,
)
    ensures
        spec_apply_progress(stored, cur, lon, goal).1 >= spec_apply_progress(
            stored,
            cur,
            lon,
            goal,
        ).0,
{
}

/// Days since creation are never negative: a creation time in the future
/// counts as zero.
pub proof fn lemma_days_never_negative(created: int, now: int)
    ensures
        spec_days_since(created, now) >= 0,
        created >= now ==> spec_days_since(created, now) == 0,
{
    if now > created {
        vstd::arithmetic::div_mod::lemma_div_is_ordered(0, now - created, 86400);
    }
}

/// The platform label of this build.
pub fn get_platform_name() -> (r: String)
    ensures
        r@ == "tauri-linux"@,
{
    "tauri-linux".to_owned()
}

/// The first value stored under `key` among an object's fields.
fn obj_get<'a>(entries: &'a Vec<(String, PrefValue)>, key: &str) -> (r: Option<&'a PrefValue>)
    ensures
        match r {
            Some(v) => lookup(obj_fields_model(entries@), key@) == Some(v.model()),
            None => lookup(obj_fields_model(entries@), key@) is None,
        },
{
    let ghost fs = obj_fields_model(entries@);
    let n = entries.len();
    let mut i: usize = 0;
    while i < n
        invariant
            i <= n == entries@.len(),
            fs == obj_fields_model(entries@),
            forall|j: int| 0 <= j < i ==> (#[trigger] fs[j]).0 != key@,
        decreases n - i,
    {
        if str_eq(entries[i].0.as_str(), key) {
            proof {
                crate::store::lemma_lookup_at(fs, key@, i as int);
            }
            return Some(&entries[i].1);
        }
        i = i + 1;
    }
    proof {
        crate::store::lemma_no_index_absent(fs, key@);
    }
    None
}

/// The fields of an object value, in their mathematical shape.
pub open spec fn obj_fields_model(entries: Seq<(String, PrefValue)>) -> Seq<(Seq<char>, ValModel)> {
    Seq::new(
        entries.len(),
        |i: int|
            if 0 <= i < entries.len() {
                (entries[i].0@, entries[i].1.model())
            } else {
                (Seq::empty(), ValModel::Null)
            },
    )
}

/// Reads a stored value as a profile.
fn parse_profile(v: &PrefValue) -> (r: Option<ProfileUser>)
    ensures
        match r {
            Some(p) => spec_profile_of(v.model()) == Some((p.full_name@, p.username@, p.email@, p.created_at as int)),
            None => spec_profile_of(v.model()) is None,
        },
{
    match v {
        PrefValue::Obj(entries) => {
            proof {
                assert(v.model()->Obj_0 =~= obj_fields_model(entries@));
            }
            let f = obj_get(entries, "fullName");
            let u = obj_get(entries, "username");
            let e = obj_get(entries, "email");
            let c = obj_get(entries, "createdAt");
            match (f, u, e, c) {
                (
                    Some(PrefValue::Str(f)),
                    Some(PrefValue::Str(u)),
                    Some(PrefValue::Str(e)),
                    Some(PrefValue::Num(c)),
                ) => Some(
                    ProfileUser {
                        full_name: f.clone(),
                        username: u.clone(),
                        email: e.clone(),
                        created_at: *c,
                    },
                ),
                _ => None,
            }
        },
        _ => None,
    }
}

/// Reads a stored value as progress counters.
fn parse_progress(v: &PrefValue) -> (r: Option<Progress>)
    ensures
        match r {
            Some(p) => spec_progress_of(v.model()) == Some(
                (p.current_streak as int, p.longest_streak as int, p.daily_goal as int),
            ),
            None => spec_progress_of(v.model()) is None,
        },
{
    match v {
        PrefValue::Obj(entries) => {
            proof {
                assert(v.model()->Obj_0 =~= obj_fields_model(entries@));
            }
            let c = obj_get(entries, "currentStreak");
            let l = obj_get(entries, "longestStreak");
            let g = obj_get(entries, "dailyGoal");
            match (c, l, g) {
                (
                    Some(PrefValue::Num(c)),
                    Some(PrefValue::Num(l)),
                    Some(PrefValue::Num(g)),
                ) => {
                    let cv = *c;
                    let lv = *l;
                    let gv = *g;
                    if 0 <= cv && cv <= u32::MAX as i64 && 0 <= lv && lv <= u32::MAX as i64 && 0
                        <= gv && gv <= u32::MAX as i64 {
                        Some(
                            Progress {
                                current_streak: cv as u32,
                                longest_streak: lv as u32,
                                daily_goal: gv as u32,
                            },
                        )
                    } else {
                        None
                    }
                },
                _ => None,
            }
        },
        _ => None,
    }
}

/// Reads a stored value as application metadata.
fn parse_meta(v: &PrefValue) -> (r: Option<AppMeta>)
    ensures
        match r {
            Some(m) => spec_meta_of(v.model()) == Some((m.version@, m.platform@, m.last_opened as int)),
            None => spec_meta_of(v.model()) is None,
        },
{
    match v {
        PrefValue::Obj(entries) => {
            proof {
                assert(v.model()->Obj_0 =~= obj_fields_model(entries@));
            }
            let ver = obj_get(entries, "version");
            let p = obj_get(entries, "platform");
            let o = obj_get(entries, "lastOpened");
            match (ver, p, o) {
                (
                    Some(PrefValue::Str(ver)),
                    Some(PrefValue::Str(p)),
                    Some(PrefValue::Num(o)),
                ) => Some(
                    AppMeta { version: ver.clone(), platform: p.clone(), last_opened: *o },
                ),
                _ => None,
            }
        },
        _ => None,
    }
}

/// Builds the stored shape of a profile.
fn profile_value(p: &ProfileUser) -> (r: PrefValue)
    ensures
        r.model() == profile_model(p.full_name@, p.username@, p.email@, p.created_at as int),
{
    let mut fields: Vec<(String, PrefValue)> = Vec::new();
    fields.push(("fullName".to_owned(), PrefValue::Str(p.full_name.clone())));
    let ghost s0 = fields@;
    fields.push(("username".to_owned(), PrefValue::Str(p.username.clone())));
    let ghost s1 = fields@;
    fields.push(("email".to_owned(), PrefValue::Str(p.email.clone())));
    let ghost s2 = fields@;
    fields.push(("createdAt".to_owned(), PrefValue::Num(p.created_at)));
    let r = PrefValue::Obj(fields);
    proof {
        let ghost fs = fields@;
        assert(s0[0].0@ == "fullName"@ && s0[0].1.model() == ValModel::Str(p.full_name@));
        assert(s1[0] == s0[0]);
        assert(s1[1].0@ == "username"@ && s1[1].1.model() == ValModel::Str(p.username@));
        assert(s2[0] == s1[0] && s2[1] == s1[1]);
        assert(s2[2].0@ == "email"@ && s2[2].1.model() == ValModel::Str(p.email@));
        assert(fs[0] == s2[0] && fs[1] == s2[1] && fs[2] == s2[2]);
        assert(fs.len() == 4);
        assert(fs[3].0@ == "createdAt"@ && fs[3].1.model() == ValModel::Num(p.created_at as int));
        assert(r.model()->Obj_0[0] == ("fullName"@, ValModel::Str(p.full_name@)));
        assert(r.model()->Obj_0[1] == ("username"@, ValModel::Str(p.username@)));
        assert(r.model()->Obj_0[2] == ("email"@, ValModel::Str(p.email@)));
        assert(r.model()->Obj_0[3] == ("createdAt"@, ValModel::Num(p.created_at as int)));
        assert(r.model()->Obj_0 =~= profile_model(
            p.full_name@,
            p.username@,
            p.email@,
            p.created_at as int,
        )->Obj_0);
    }
    r
}

/// Builds the stored shape of progress counters.
fn progress_value(p: &Progress) -> (r: PrefValue)
    ensures
        r.model() == progress_model(
            p.current_streak as int,
            p.longest_streak as int,
            p.daily_goal as int,
        ),
{
    let mut fields: Vec<(String, PrefValue)> = Vec::new();
    fields.push(("currentStreak".to_owned(), PrefValue::Num(p.current_streak as i64)));
    let ghost s0 = fields@;
    fields.push(("longestStreak".to_owned(), PrefValue::Num(p.longest_streak as i64)));
    let ghost s1 = fields@;
    fields.push(("dailyGoal".to_owned(), PrefValue::Num(p.daily_goal as i64)));
    let r = PrefValue::Obj(fields);
    proof {
        let ghost fs = fields@;
        assert(s0[0].0@ == "currentStreak"@ && s0[0].1.model() == ValModel::Num(
            p.current_streak as int,
        ));
        assert(s1[0] == s0[0]);
        assert(s1[1].0@ == "longestStreak"@ && s1[1].1.model() == ValModel::Num(
            p.longest_streak as int,
        ));
        assert(fs[0] == s1[0] && fs[1] == s1[1]);
        assert(fs.len() == 3);
        assert(fs[2].0@ == "dailyGoal"@ && fs[2].1.model() == ValModel::Num(p.daily_goal as int));
        assert(r.model()->Obj_0[0] == ("currentStreak"@, ValModel::Num(p.current_streak as int)));
        assert(r.model()->Obj_0[1] == ("longestStreak"@, ValModel::Num(p.longest_streak as int)));
        assert(r.model()->Obj_0[2] == ("dailyGoal"@, ValModel::Num(p.daily_goal as int)));
        assert(r.model()->Obj_0 =~= progress_model(
            p.current_streak as int,
            p.longest_streak as int,
            p.daily_goal as int,
        )->Obj_0);
    }
    r
}

/// Builds the stored shape of application metadata.
fn meta_value(m: &AppMeta) -> (r: PrefValue)
    ensures
        r.model() == meta_model(m.version@, m.platform@, m.last_opened as int),
{
    let mut fields: Vec<(String, PrefValue)> = Vec::new();
    fields.push(("version".to_owned(), PrefValue::Str(m.version.clone())));
    let ghost s0 = fields@;
    fields.push(("platform".to_owned(), PrefValue::Str(m.platform.clone())));
    let ghost s1 = fields@;
    fields.push(("lastOpened".to_owned(), PrefValue::Num(m.last_opened)));
    let r = PrefValue::Obj(fields);
    proof {
        let ghost fs = fields@;
        assert(s0[0].0@ == "version"@ && s0[0].1.model() == ValModel::Str(m.version@));
        assert(s1[0] == s0[0]);
        assert(s1[1].0@ == "platform"@ && s1[1].1.model() == ValModel::Str(m.platform@));
        assert(fs[0] == s1[0] && fs[1] == s1[1]);
        assert(fs.len() == 3);
        assert(fs[2].0@ == "lastOpened"@ && fs[2].1.model() == ValModel::Num(m.last_opened as int));
        assert(r.model()->Obj_0[0] == ("version"@, ValModel::Str(m.version@)));
        assert(r.model()->Obj_0[1] == ("platform"@, ValModel::Str(m.platform@)));
        assert(r.model()->Obj_0[2] == ("lastOpened"@, ValModel::Num(m.last_opened as int)));
        assert(r.model()->Obj_0 =~= meta_model(m.version@, m.platform@, m.last_opened as int)->Obj_0);
    }
    r
}


/// The creation time the profile keeps: the one already stored when it can be
/// read back, else the present call's time.
pub open spec fn spec_created_at(s: Seq<(Seq<char>, ValModel)>, now: int) -> int {
    match lookup(s, "profileUser"@) {
        Some(m) => match spec_profile_of(m) {
            Some(p) => p.3,
            None => now,
        },
        None => now,
    }
}

/// The metadata the store holds under `appMeta`, with the documented
/// defaults where the entry is absent or unreadable.
pub open spec fn spec_meta_at(s: Seq<(Seq<char>, ValModel)>, now: int) -> (
    Seq<char>,
    Seq<char>,
    int,
) {
    match lookup(s, "appMeta"@) {
        Some(m) => match spec_meta_of(m) {
            Some(t) => t,
            None => ("1.0.0"@, "tauri-linux"@, now),
        },
        None => ("1.0.0"@, "tauri-linux"@, now),
    }
}

/// Creates the profile, or updates it while keeping the stored creation time;
/// every field must be non-blank.
pub fn create_or_update_profile(
    store: &mut PrefMap,
    full_name: String,
    username: String,
    email: String,
    now: i64,
) -> (r: Result<PrefEvent, AppError>)
    requires
        old(store).wf(),
    ensures
        final(store).wf(),
        match r {
            Ok(ev) => !is_blank(full_name@) && !is_blank(username@) && !is_blank(email@)
                && final(store)@ =~= spec_upsert(
                old(store)@,
                "profileUser"@,
                profile_model(
                    full_name@,
                    username@,
                    email@,
                    spec_created_at(old(store)@, now as int),
                ),
            ) && (ev matches PrefEvent::Updated { .. }),
            Err(e) => e == AppError::Validation && (is_blank(full_name@) || is_blank(username@)
                || is_blank(email@)) && *final(store) == *old(store),
        },
{
    if str_is_blank(full_name.as_str()) || str_is_blank(username.as_str()) || str_is_blank(
        email.as_str(),
    ) {
        return Err(AppError::Validation);
    }
    proof {
        reveal_strlit("profileUser");
        assert(!is_ws_char("profileUser"@[0]));
    }
    let stored = match store.get_preference("profileUser") {
        Ok(v) => v,
        Err(_) => {
            proof {
                assert(false);
            }
            PrefValue::Null
        },
    };
    let created_at = match parse_profile(&stored) {
        Some(p) => p.created_at,
        None => now,
    };
    let profile = ProfileUser { full_name, username, email, created_at };
    let value = profile_value(&profile);
    match store.save_preference("profileUser".to_owned(), value) {
        Ok(ev) => Ok(ev),
        Err(_) => {
            proof {
                assert(false);
            }
            Err(AppError::Validation)
        },
    }
}

/// The profile aggregate: the stored profile, with the documented defaults
/// for missing or unreadable progress and metadata.
pub fn get_profile_data(store: &PrefMap, now: i64) -> (r: Result<ProfileData, AppError>)
    ensures
        match r {
            Ok(d) => {
                &&& lookup(store@, "profileUser"@) is Some
                &&& spec_profile_of(lookup(store@, "profileUser"@)->0) == Some(
                    (
                        d.profile_user.full_name@,
                        d.profile_user.username@,
                        d.profile_user.email@,
                        d.profile_user.created_at as int,
                    ),
                )
                &&& (
                    d.progress.current_streak as int,
                    d.progress.longest_streak as int,
                    d.progress.daily_goal as int,
                ) == spec_progress_at(store@)
                &&& (d.app_meta.version@, d.app_meta.platform@, d.app_meta.last_opened as int)
                    == spec_meta_at(store@, now as int)
            },
            Err(AppError::NotFound) => lookup(store@, "profileUser"@) is None,
            Err(AppError::Parse) => lookup(store@, "profileUser"@) is Some && spec_profile_of(
                lookup(store@, "profileUser"@)->0,
            ) is None,
            Err(_) => false,
        },
{
    proof {
        reveal_strlit("profileUser");
        assert(!is_ws_char("profileUser"@[0]));
        reveal_strlit("progress");
        assert(!is_ws_char("progress"@[0]));
        reveal_strlit("appMeta");
        assert(!is_ws_char("appMeta"@[0]));
    }
    let present = match store.has_preference("profileUser") {
        Ok(b) => b,
        Err(_) => {
            proof {
                assert(false);
            }
            false
        },
    };
    if !present {
        return Err(AppError::NotFound);
    }
    let stored = match store.get_preference("profileUser") {
        Ok(v) => v,
        Err(_) => {
            proof {
                assert(false);
            }
            PrefValue::Null
        },
    };
    let profile_user = match parse_profile(&stored) {
        Some(p) => p,
        None => {
            return Err(AppError::Parse);
        },
    };
    let progress_stored = match store.get_preference("progress") {
        Ok(v) => v,
        Err(_) => {
            proof {
                assert(false);
            }
            PrefValue::Null
        },
    };
    let progress = match parse_progress(&progress_stored) {
        Some(p) => p,
        None => Progress { current_streak: 0, longest_streak: 0, daily_goal: 10 },
    };
    let meta_stored = match store.get_preference("appMeta") {
        Ok(v) => v,
        Err(_) => {
            proof {
                assert(false);
            }
            PrefValue::Null
        },
    };
    let app_meta = match parse_meta(&meta_stored) {
        Some(m) => m,
        None => AppMeta {
            version: "1.0.0".to_owned(),
            platform: get_platform_name(),
            last_opened: now,
        },
    };
    Ok(ProfileData { profile_user, progress, app_meta })
}

/// Applies a partial update to the stored progress; a given current streak
/// raises the longest when it passes it, and the longest never ends below
/// the current.
pub fn update_progress(
    store: &mut PrefMap,
    current_streak: Option<u32>,
    longest_streak: Option<u32>,
    daily_goal: Option<u32>,
) -> (r: Result<PrefEvent, AppError>)
    requires
        old(store).wf(),
    ensures
        final(store).wf(),
        r is Ok,
        ({
            let applied = spec_apply_progress(
                spec_progress_at(old(store)@),
                current_streak,
                longest_streak,
                daily_goal,
            );
            &&& final(store)@ =~= spec_upsert(
                old(store)@,
                "progress"@,
                progress_model(applied.0, applied.1, applied.2),
            )
            &&& applied.1 >= applied.0
        }),
{
    proof {
        reveal_strlit("progress");
        assert(!is_ws_char("progress"@[0]));
    }
    let stored = match store.get_preference("progress") {
        Ok(v) => v,
        Err(_) => {
            proof {
                assert(false);
            }
            PrefValue::Null
        },
    };
    let mut p = match parse_progress(&stored) {
        Some(p) => p,
        None => Progress { current_streak: 0, longest_streak: 0, daily_goal: 10 },
    };
    if let Some(c) = current_streak {
        p.current_streak = c;
        if c > p.longest_streak {
            p.longest_streak = c;
        }
    }
    if let Some(l) = longest_streak {
        p.longest_streak = l;
    }
    if let Some(g) = daily_goal {
        p.daily_goal = g;
    }
    if p.longest_streak < p.current_streak {
        p.longest_streak = p.current_streak;
    }
    let value = progress_value(&p);
    match store.save_preference("progress".to_owned(), value) {
        Ok(ev) => Ok(ev),
        Err(_) => {
            proof {
                assert(false);
            }
            Err(AppError::Validation)
        },
    }
}

/// Regenerates the application metadata whole, stamping the present time.
pub fn update_app_meta(store: &mut PrefMap, now: i64) -> (r: Result<PrefEvent, AppError>)
    requires
        old(store).wf(),
    ensures
        final(store).wf(),
        r is Ok,
        final(store)@ =~= spec_upsert(
            old(store)@,
            "appMeta"@,
            meta_model("1.0.0"@, "tauri-linux"@, now as int),
        ),
{
    proof {
        reveal_strlit("appMeta");
        assert(!is_ws_char("appMeta"@[0]));
    }
    let meta = AppMeta {
        version: "1.0.0".to_owned(),
        platform: get_platform_name(),
        last_opened: now,
    };
    let value = meta_value(&meta);
    match store.save_preference("appMeta".to_owned(), value) {
        Ok(ev) => Ok(ev),
        Err(_) => {
            proof {
                assert(false);
            }
            Err(AppError::Validation)
        },
    }
}

/// Raises the current streak by one, the longest with it where needed, and
/// stamps the metadata afresh.
pub fn increment_streak(store: &mut PrefMap, now: i64) -> (r: Result<
    (PrefEvent, PrefEvent),
    AppError,
>)
    requires
        old(store).wf(),
        spec_progress_at(old(store)@).0 < u32::MAX,
    ensures
        final(store).wf(),
        r is Ok,
        ({
            let p0 = spec_progress_at(old(store)@);
            let c = p0.0 + 1;
            let l = if p0.1 < c {
                c
            } else {
                p0.1
            };
            final(store)@ =~= spec_upsert(
                spec_upsert(old(store)@, "progress"@, progress_model(c, l, p0.2)),
                "appMeta"@,
                meta_model("1.0.0"@, "tauri-linux"@, now as int),
            ) && l >= c
        }),
{
    proof {
        reveal_strlit("progress");
        assert(!is_ws_char("progress"@[0]));
    }
    let stored = match store.get_preference("progress") {
        Ok(v) => v,
        Err(_) => {
            proof {
                assert(false);
            }
            PrefValue::Null
        },
    };
    let mut p = match parse_progress(&stored) {
        Some(p) => p,
        None => Progress { current_streak: 0, longest_streak: 0, daily_goal: 10 },
    };
    p.current_streak = p.current_streak + 1;
    if p.current_streak > p.longest_streak {
        p.longest_streak = p.current_streak;
    }
    let value = progress_value(&p);
    let first = match store.save_preference("progress".to_owned(), value) {
        Ok(ev) => ev,
        Err(_) => {
            proof {
                assert(false);
            }
            PrefEvent::Cleared
        },
    };
    match update_app_meta(store, now) {
        Ok(second) => Ok((first, second)),
        Err(_) => {
            proof {
                assert(false);
            }
            Err(AppError::Validation)
        },
    }
}

/// Whole days since the profile was created, never negative even when the
/// stored creation time lies in the future.
pub fn get_days_since_creation(store: &PrefMap, now: i64) -> (r: Result<u32, AppError>)
    ensures
        match r {
            Ok(d) => {
                &&& lookup(store@, "profileUser"@) is Some
                &&& spec_profile_of(lookup(store@, "profileUser"@)->0) is Some
                &&& d as int == spec_days_since(
                    (spec_profile_of(lookup(store@, "profileUser"@)->0)->0).3,
                    now as int,
                )
            },
            Err(AppError::NotFound) => lookup(store@, "profileUser"@) is None,
            Err(AppError::Parse) => lookup(store@, "profileUser"@) is Some && spec_profile_of(
                lookup(store@, "profileUser"@)->0,
            ) is None,
            Err(_) => false,
        },
{
    proof {
        reveal_strlit("profileUser");
        assert(!is_ws_char("profileUser"@[0]));
    }
    let present = match store.has_preference("profileUser") {
        Ok(b) => b,
        Err(_) => {
            proof {
                assert(false);
            }
            false
        },
    };
    if !present {
        return Err(AppError::NotFound);
    }
    let stored = match store.get_preference("profileUser") {
        Ok(v) => v,
        Err(_) => {
            proof {
                assert(false);
            }
            PrefValue::Null
        },
    };
    let profile = match parse_profile(&stored) {
        Some(p) => p,
        None => {
            return Err(AppError::Parse);
        },
    };
    let created = profile.created_at;
    if now <= created {
        Ok(0)
    } else {
        let diff: i128 = now as i128 - created as i128;
        let d: i128 = diff / 86400;
        if d > u32::MAX as i128 {
            Ok(u32::MAX)
        } else {
            Ok(d as u32)
        }
    }
}

} // verus!
