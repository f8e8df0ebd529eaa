use vstd::prelude::*;
use crate::AppError;
use crate::text::{is_blank, str_eq, str_is_blank};
use crate::value::{PrefValue, ValModel};

verus! {

/// The first value stored under `k`, or `None` when no entry carries `k`.
pub open spec fn lookup(s: Seq<(Seq<char>, ValModel)>, k: Seq<char>) -> Option<ValModel>
    decreases s.len(),
{
    if s.len() == 0 {
        None
    } else if s[0].0 == k {
        Some(s[0].1)
    } else {
        lookup(s.drop_first(), k)
    }
}

pub open spec fn has_key(s: Seq<(Seq<char>, ValModel)>, k: Seq<char>) -> bool {
    lookup(s, k) is Some
}

/// No two entries carry the same key.
pub open spec fn keys_unique(s: Seq<(Seq<char>, ValModel)>) -> bool {
    forall|i: int, j: int| 0 <= i < j < s.len() ==> (#[trigger] s[i]).0 != (#[trigger] s[j]).0
}

/// `s` with `k` bound to `m`: the entry for `k` is replaced in place, or
/// appended when `k` is absent.
pub open spec fn spec_upsert(
    s: Seq<(Seq<char>, ValModel)>,
    k: Seq<char>,
    m: ValModel,
) -> Seq<(Seq<char>, ValModel)>
    decreases s.len(),
{
    if s.len() == 0 {
        seq![(k, m)]
    } else if s[0].0 == k {
        seq![(k, m)] + s.drop_first()
    } else {
        seq![s[0]] + spec_upsert(s.drop_first(), k, m)
    }
}

/// `s` without the first entry that carries `k`.
pub open spec fn spec_remove(s: Seq<(Seq<char>, ValModel)>, k: Seq<char>) -> Seq<
    (Seq<char>, ValModel),
>
    decreases s.len(),
{
    if s.len() == 0 {
        s
    } else if s[0].0 == k {
        s.drop_first()
    } else {
        seq![s[0]] + spec_remove(s.drop_first(), k)
    }
}

/// Replacing the value at the first occurrence of `k` is the upsert.
pub proof fn lemma_upsert_at(
    s: Seq<(Seq<char>, ValModel)>,
    k: Seq<char>,
    m: ValModel,
    i: int,
)
    requires
        0 <= i < s.len(),
        s[i].0 == k,
        forall|j: int| 0 <= j < i ==> (#[trigger] s[j]).0 != k,
    ensures
        spec_upsert(s, k, m) =~= s.update(i, (k, m)),
    decreases s.len(),
{
    if i == 0 {
    } else {
        lemma_upsert_at(s.drop_first(), k, m, i - 1);
        assert(forall|j: int|
            0 <= j < i - 1 ==> (#[trigger] s.drop_first()[j]).0 == s[j + 1].0);
        assert(seq![s[0]] + s.drop_first().update(i - 1, (k, m)) =~= s.update(i, (k, m)));
    }
}

/// When `k` is absent the upsert appends.
pub proof fn lemma_upsert_absent(s: Seq<(Seq<char>, ValModel)>, k: Seq<char>, m: ValModel)
    requires
        forall|j: int| 0 <= j < s.len() ==> (#[trigger] s[j]).0 != k,
    ensures
        spec_upsert(s, k, m) =~= s.push((k, m)),
    decreases s.len(),
{
    if s.len() > 0 {
        lemma_upsert_absent(s.drop_first(), k, m);
        assert(seq![s[0]] + s.drop_first().push((k, m)) =~= s.push((k, m)));
    }
}

/// Removing the first occurrence of `k`, standing at `i`, deletes that entry.
pub proof fn lemma_remove_at(s: Seq<(Seq<char>, ValModel)>, k: Seq<char>, i: int)
    requires
        0 <= i < s.len(),
        s[i].0 == k,
        forall|j: int| 0 <= j < i ==> (#[trigger] s[j]).0 != k,
    ensures
        spec_remove(s, k) =~= s.remove(i),
    decreases s.len(),
{
    if i == 0 {
        assert(s.drop_first() =~= s.remove(0));
    } else {
        lemma_remove_at(s.drop_first(), k, i - 1);
        assert(seq![s[0]] + s.drop_first().remove(i - 1) =~= s.remove(i));
    }
}

/// A notification owed to the front-end after an operation. The caller emits
/// it only once the new state is safely persisted.
pub enum PrefEvent {
    /// One preference was written: `preference-updated`.
    Updated { key: String, value: PrefValue },
    /// One preference was removed: `preference-deleted`.
    Deleted { key: String },
    /// The whole mapping was replaced: `preferences-updated`.
    Replaced { preferences: PrefMap },
    /// Everything was removed: `preferences-cleared`.
    Cleared,
    /// Sent once at startup with the stored user data: `user-data-loaded`.
    UserDataLoaded { value: PrefValue },
    /// Sent once at startup with the full mapping: `preferences-loaded`.
    Loaded { preferences: PrefMap },
}

impl PrefEvent {
    /// The event name the front-end listens for.
    pub fn name(&self) -> (r: String)
        ensures
            match self {
                PrefEvent::Updated { .. } => r@ == "preference-updated"@,
                PrefEvent::Deleted { .. } => r@ == "preference-deleted"@,
                PrefEvent::Replaced { .. } => r@ == "preferences-updated"@,
                PrefEvent::Cleared => r@ == "preferences-cleared"@,
                PrefEvent::UserDataLoaded { .. } => r@ == "user-data-loaded"@,
                PrefEvent::Loaded { .. } => r@ == "preferences-loaded"@,
            },
    {
        match self {
            PrefEvent::Updated { .. } => "preference-updated".to_owned(),
            PrefEvent::Deleted { .. } => "preference-deleted".to_owned(),
            PrefEvent::Replaced { .. } => "preferences-updated".to_owned(),
            PrefEvent::Cleared => "preferences-cleared".to_owned(),
            PrefEvent::UserDataLoaded { .. } => "user-data-loaded".to_owned(),
            PrefEvent::Loaded { .. } => "preferences-loaded".to_owned(),
        }
    }
}

/// The preference mapping: string keys bound to JSON-like values, kept in
/// insertion order, each key at most once.
pub struct PrefMap {
    entries: Vec<(String, PrefValue)>,
}

impl View for PrefMap {
    type V = Seq<(Seq<char>, ValModel)>;

    closed spec fn view(&self) -> Seq<(Seq<char>, ValModel)> {
        Seq::new(
            self.entries@.len(),
            |i: int|
                if 0 <= i < self.entries@.len() {
                    (self.entries@[i].0@, self.entries@[i].1.model())
                } else {
                    (Seq::empty(), ValModel::Null)
                },
        )
    }
}

impl PrefMap {
    /// Every key occurs once.
    pub open spec fn wf(&self) -> bool {
        keys_unique(self@)
    }

    /// An empty mapping.
    pub fn new() -> (r: PrefMap)
        ensures
            r@ =~= Seq::<(Seq<char>, ValModel)>::empty(),
            r.wf(),
    {
        PrefMap { entries: Vec::new() }
    }

    /// The entries, in order.
    pub fn entries(&self) -> (r: &Vec<(String, PrefValue)>)
        ensures
            r@.len() == self@.len(),
            forall|i: int| 0 <= i < r@.len() ==> (#[trigger] r@[i]).0@ == self@[i].0 && r@[i].1.model()
                == self@[i].1,
    {
        &self.entries
    }

    /// A copy of the mapping, equal in shape.
    pub fn clone_map(&self) -> (r: PrefMap)
        ensures
            r@ =~= self@,
    {
        let mut out: Vec<(String, PrefValue)> = Vec::new();
        let n = self.entries.len();
        let mut i: usize = 0;
        while i < n
            invariant
                i <= n == self.entries@.len(),
                out@.len() == i,
                forall|j: int| 0 <= j < i ==> (#[trigger] out@[j]).0@ == self.entries@[j].0@
                    && out@[j].1.model() == self.entries@[j].1.model(),
            decreases n - i,
        {
            let pair = &self.entries[i];
            let k = pair.0.clone();
            let v = pair.1.deep_clone();
            out.push((k, v));
            i = i + 1;
        }
        let r = PrefMap { entries: out };
        r
    }

    /// Writes `value` under `key`, with no condition on the key.
    #[verifier::loop_isolation(false)]
    pub fn set_entry(&mut self, key: String, value: PrefValue)
        requires
            old(self).wf(),
        ensures
            final(self).wf(),
            final(self)@ =~= spec_upsert(old(self)@, key@, value.model()),
    {
        let ghost pre = self@;
        let ghost keyv = key@;
        let ghost valm = value.model();
        let n = self.entries.len();
        let mut i: usize = 0;
        while i < n
            invariant
                i <= n == self.entries@.len(),
                self@ == pre,
                forall|j: int| 0 <= j < i ==> (#[trigger] pre[j]).0 != keyv,
            decreases n - i,
        {
            if str_eq(self.entries[i].0.as_str(), key.as_str()) {
                self.entries[i].1 = value;
                proof {
                    assert(self@ =~= pre.update(i as int, (keyv, valm)));
                    lemma_upsert_at(pre, keyv, valm, i as int);
                    assert(forall|j: int|
                        0 <= j < pre.len() ==> (#[trigger] self@[j]).0 == pre[j].0);
                }
                return ;
            }
            i = i + 1;
        }
        self.entries.push((key, value));
        proof {
            assert(self@ =~= pre.push((keyv, valm)));
            lemma_upsert_absent(pre, keyv, valm);
            lemma_no_index_unique_push(pre, keyv, valm);
        }
    }

    /// Writes `value` under `key` and reports the notification owed; a blank
    /// key is rejected untouched.
    pub fn save_preference(&mut self, key: String, value: PrefValue) -> (r: Result<
        PrefEvent,
        AppError,
    >)
        requires
            old(self).wf(),
        ensures
            final(self).wf(),
            match r {
                Ok(ev) => !is_blank(key@) && final(self)@ =~= spec_upsert(
                    old(self)@,
                    key@,
                    value.model(),
                ) && (ev matches PrefEvent::Updated { key: ek, value: ev2 } && ek@ == key@
                    && ev2.model() == value.model()),
                Err(e) => e == AppError::Validation && is_blank(key@) && *final(self) == *old(self),
            },
    {
        if str_is_blank(key.as_str()) {
            return Err(AppError::Validation);
        }
        let ev_key = key.clone();
        let ev_value = value.deep_clone();
        self.set_entry(key, value);
        Ok(PrefEvent::Updated { key: ev_key, value: ev_value })
    }

    /// The stored value under `key`, `Null` when there is none; a blank key is
    /// rejected.
    #[verifier::loop_isolation(false)]
    pub fn get_preference(&self, key: &str) -> (r: Result<PrefValue, AppError>)
        ensures
            match r {
                Ok(v) => !is_blank(key@) && v.model() == match lookup(self@, key@) {
                    Some(m) => m,
                    None => ValModel::Null,
                },
                Err(e) => e == AppError::Validation && is_blank(key@),
            },
    {
        if str_is_blank(key) {
            return Err(AppError::Validation);
        }
        match self.find_index(key) {
            Some(i) => Ok(self.entries[i].1.deep_clone()),
            None => Ok(PrefValue::Null),
        }
    }

    /// The position of `key`, or `None` when it is absent.
    #[verifier::loop_isolation(false)]
    fn find_index(&self, key: &str) -> (r: Option<usize>)
        ensures
            match r {
                Some(i) => i < self@.len() && self@[i as int].0 == key@ && lookup(self@, key@)
                    == Some(self@[i as int].1) && (forall|j: int|
                    0 <= j < i ==> (#[trigger] self@[j]).0 != key@),
                None => !has_key(self@, key@),
            },
    {
        let n = self.entries.len();
        let mut i: usize = 0;
        while i < n
            invariant
                i <= n,
                forall|j: int| 0 <= j < i ==> (#[trigger] self@[j]).0 != key@,
            decreases n - i,
        {
            if str_eq(self.entries[i].0.as_str(), key) {
                proof {
                    lemma_lookup_at(self@, key@, i as int);
                }
                return Some(i);
            }
            i = i + 1;
        }
        proof {
            lemma_no_index_absent(self@, key@);
        }
        None
    }

    /// Whether `key` is stored; a blank key is rejected.
    pub fn has_preference(&self, key: &str) -> (r: Result<bool, AppError>)
        ensures
            match r {
                Ok(b) => !is_blank(key@) && b == has_key(self@, key@),
                Err(e) => e == AppError::Validation && is_blank(key@),
            },
    {
        if str_is_blank(key) {
            return Err(AppError::Validation);
        }
        match self.find_index(key) {
            Some(_) => Ok(true),
            None => Ok(false),
        }
    }

    /// Removes the entry under `key` and reports the notification owed; a
    /// blank key is invalid, and an absent key is reported missing.
    #[verifier::loop_isolation(false)]
    pub fn delete_preference(&mut self, key: &str) -> (r: Result<PrefEvent, AppError>)
        requires
            old(self).wf(),
        ensures
            final(self).wf(),
            match r {
                Ok(ev) => !is_blank(key@) && has_key(old(self)@, key@) && final(self)@
                    =~= spec_remove(old(self)@, key@) && (ev matches PrefEvent::Deleted {
                    key: ek } && ek@ == key@),
                Err(e) => *final(self) == *old(self) && (if is_blank(key@) {
                    e == AppError::Validation
                } else {
                    e == AppError::NotFound && !has_key(old(self)@, key@)
                }),
            },
    {
        if str_is_blank(key) {
            return Err(AppError::Validation);
        }
        let ghost pre = self@;
        match self.find_index(key) {
            None => Err(AppError::NotFound),
            Some(i) => {
                proof {
                    lemma_lookup_at(pre, key@, i as int);
                }
                self.entries.remove(i);
                proof {
                    assert(self@ =~= pre.remove(i as int));
                    lemma_remove_at(pre, key@, i as int);
                    assert(forall|a: int, b: int|
                        0 <= a < b < self@.len() ==> (#[trigger] self@[a]) == (if a < i {
                            pre[a]
                        } else {
                            pre[a + 1]
                        }) && (#[trigger] self@[b]) == (if b < i {
                            pre[b]
                        } else {
                            pre[b + 1]
                        }));
                }
                Ok(PrefEvent::Deleted { key: key.to_owned() })
            },
        }
    }

    /// The full mapping, as a copy.
    pub fn get_all_preferences(&self) -> (r: PrefMap)
        ensures
            r@ =~= self@,
    {
        self.clone_map()
    }

    /// Removes every entry and reports the notification owed.
    pub fn clear_all_preferences(&mut self) -> (ev: PrefEvent)
        ensures
            final(self)@ =~= Seq::<(Seq<char>, ValModel)>::empty(),
            final(self).wf(),
            ev == PrefEvent::Cleared,
    {
        self.entries.clear();
        PrefEvent::Cleared
    }

    /// Replaces the whole mapping with `preferences` and reports the
    /// notification owed, which carries the new mapping.
    pub fn save_all_preferences(&mut self, preferences: PrefMap) -> (ev: PrefEvent)
        requires
            preferences.wf(),
        ensures
            final(self)@ =~= preferences@,
            final(self).wf(),
            ev matches PrefEvent::Replaced { preferences: p } && p@ =~= preferences@,
    {
        let copy = preferences.clone_map();
        self.entries = preferences.entries;
        PrefEvent::Replaced { preferences: copy }
    }

    /// The notifications owed at startup: the stored user data, then the full
    /// mapping.
    pub fn initialize_store(&self) -> (evs: (PrefEvent, PrefEvent))
        ensures
            evs.0 matches PrefEvent::UserDataLoaded { value: v } && v.model() == match lookup(
                self@,
                "user-data"@,
            ) {
                Some(m) => m,
                None => ValModel::Null,
            },
            evs.1 matches PrefEvent::Loaded { preferences: p } && p@ =~= self@,
    {
        let user_data = match self.find_index("user-data") {
            Some(i) => self.entries[i].1.deep_clone(),
            None => PrefValue::Null,
        };
        let all = self.clone_map();
        (
            PrefEvent::UserDataLoaded { value: user_data },
            PrefEvent::Loaded { preferences: all },
        )
    }
}

/// The first occurrence of `k` decides the lookup.
pub proof fn lemma_lookup_at(s: Seq<(Seq<char>, ValModel)>, k: Seq<char>, i: int)
    requires
        0 <= i < s.len(),
        s[i].0 == k,
        forall|j: int| 0 <= j < i ==> (#[trigger] s[j]).0 != k,
    ensures
        lookup(s, k) == Some(s[i].1),
    decreases i,
{
    if i > 0 {
        lemma_lookup_at(s.drop_first(), k, i - 1);
    }
}

/// Replacing the whole mapping and then reading everything back yields
/// exactly the mapping that was saved: what `save_all_preferences` leaves in
/// the store, `get_all_preferences` hands back unchanged.
pub proof fn lemma_save_all_then_get_all(
    given: Seq<(Seq<char>, ValModel)>,
    stored: Seq<(Seq<char>, ValModel)>,
    read: Seq<(Seq<char>, ValModel)>,
)
    requires
        stored =~= given,
        read =~= stored,
    ensures
        read =~= given,
{
}

/// When no index carries `k`, the lookup fails.
pub proof fn lemma_no_index_absent(s: Seq<(Seq<char>, ValModel)>, k: Seq<char>)
    requires
        forall|j: int| 0 <= j < s.len() ==> (#[trigger] s[j]).0 != k,
    ensures
        !has_key(s, k),
    decreases s.len(),
{
    if s.len() > 0 {
        lemma_no_index_absent(s.drop_first(), k);
    }
}

/// Appending a fresh key keeps the keys unique.
pub proof fn lemma_no_index_unique_push(
    s: Seq<(Seq<char>, ValModel)>,
    k: Seq<char>,
    m: ValModel,
)
    requires
        keys_unique(s),
        forall|j: int| 0 <= j < s.len() ==> (#[trigger] s[j]).0 != k,
    ensures
        keys_unique(s.push((k, m))),
{
}

} // verus!
