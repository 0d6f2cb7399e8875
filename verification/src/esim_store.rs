//! The eSIM wallet: saved profiles, their normalisation on save, the list
//! ordered by name, and the renewals and expiries that fall due.
//! Reading and writing the JSON file is the application's part.

use vstd::prelude::*;

use crate::model::{
    field_views, opt_chars, profile_views, text_views, CustomField, EsimProfile, EsimProfileView,
};
use crate::state::{
    lemma_profile_index_from, lemma_profile_index_from_same, lemma_text_lt_asym,
    lemma_text_lt_total, lemma_text_lt_trans, profile_index_from, text_lt, without_profile,
};
use crate::text::{
    ascii_upper_chars, chars_of, str_to_string, string_of, to_lowercase, trim, trim_ws,
    unicode_lowercase, upper_seq,
};
use crate::ids::uuid_v4_text;
use crate::time::{now_rfc3339, parse_ymd_days, today_local_days, ymd_days};

verus! {

// ---------------------------------------------------------------------------
// Ordering by name.
// ---------------------------------------------------------------------------

/// The key the wallet sorts by: the profile name in Unicode lower case.
pub open spec fn name_key(p: EsimProfileView) -> Seq<char> {
    unicode_lowercase(p.name)
}

/// Where `p` joins a list ordered by name, looking from `i`: before the first
/// profile whose key is greater, so that equal names keep their order.
pub open spec fn name_pos_from(ps: Seq<EsimProfileView>, p: EsimProfileView, i: int) -> int
    decreases ps.len() - i,
{
    if i < 0 || i >= ps.len() {
        ps.len() as int
    } else if text_lt(name_key(p), name_key(ps[i])) {
        i
    } else {
        name_pos_from(ps, p, i + 1)
    }
}

pub proof fn lemma_name_pos_from(ps: Seq<EsimProfileView>, p: EsimProfileView, i: int)
    requires
        0 <= i <= ps.len(),
    ensures
        i <= name_pos_from(ps, p, i) <= ps.len(),
    decreases ps.len() - i,
{
    if i < ps.len() && !text_lt(name_key(p), name_key(ps[i])) {
        lemma_name_pos_from(ps, p, i + 1);
    }
}

/// The profiles ordered by lower-cased name, equal names in the order given
/// (a stable sort).
pub open spec fn by_name(ps: Seq<EsimProfileView>) -> Seq<EsimProfileView>
    decreases ps.len(),
{
    if ps.len() == 0 {
        ps
    } else {
        let sorted = by_name(ps.drop_last());
        sorted.insert(name_pos_from(sorted, ps.last(), 0), ps.last())
    }
}

// ---------------------------------------------------------------------------
// Saving.
// ---------------------------------------------------------------------------

/// The tags as saved: each trimmed, the blank ones dropped.
pub open spec fn cleaned_tags(tags: Seq<Seq<char>>) -> Seq<Seq<char>>
    decreases tags.len(),
{
    if tags.len() == 0 {
        tags
    } else {
        let rest = cleaned_tags(tags.drop_last());
        if trim(tags.last()).len() > 0 {
            rest.push(trim(tags.last()))
        } else {
            rest
        }
    }
}

/// The custom fields as saved: those whose label and value are both blank are dropped.
pub open spec fn kept_fields(fields: Seq<(Seq<char>, Seq<char>)>) -> Seq<(Seq<char>, Seq<char>)>
    decreases fields.len(),
{
    if fields.len() == 0 {
        fields
    } else {
        let rest = kept_fields(fields.drop_last());
        if trim(fields.last().0).len() > 0 || trim(fields.last().1).len() > 0 {
            rest.push(fields.last())
        } else {
            rest
        }
    }
}

/// A profile as saved at `now`: a new profile (blank id) gets `fresh_id` and
/// is created now; one without a creation time is created now; every save
/// stamps the update time, trims and upper-cases the country code and cleans
/// the tags and custom fields.
pub open spec fn normalized_profile(p: EsimProfileView, now: Seq<char>, fresh_id: Seq<char>) -> EsimProfileView {
    let new_profile = trim(p.id).len() == 0;
    EsimProfileView {
        id: if new_profile {
            fresh_id
        } else {
            p.id
        },
        created_at: if new_profile || trim(p.created_at).len() == 0 {
            now
        } else {
            p.created_at
        },
        updated_at: now,
        country_code: upper_seq(trim(p.country_code)),
        tags: cleaned_tags(p.tags),
        custom_fields: kept_fields(p.custom_fields),
        ..p
    }
}

fn clean_tags(tags: Vec<String>) -> (r: Vec<String>)
    ensures
        text_views(r@) == cleaned_tags(text_views(tags@)),
{
    let mut r: Vec<String> = Vec::new();
    let mut i: usize = 0;
    while i < tags.len()
        invariant
            0 <= i <= tags.len(),
            text_views(r@) == cleaned_tags(text_views(tags@.take(i as int))),
        decreases tags.len() - i,
    {
        let v = chars_of(tags[i].as_str());
        let t = trim_ws(&v);
        let ghost before = text_views(r@);
        assert(text_views(tags@.take(i + 1)).drop_last() =~= text_views(tags@.take(i as int)));
        assert(text_views(tags@.take(i + 1)).last() == tags@[i as int]@);
        if t.len() > 0 {
            let s = string_of(&t);
            r.push(s);
            assert(text_views(r@) =~= before.push(t@));
        }
        i = i + 1;
    }
    assert(tags@.take(tags.len() as int) =~= tags@);
    r
}

fn keep_fields(fields: Vec<CustomField>) -> (r: Vec<CustomField>)
    ensures
        field_views(r@) == kept_fields(field_views(fields@)),
{
    let mut r: Vec<CustomField> = Vec::new();
    let mut rest = fields;
    let ghost all = rest@;
    let mut i: usize = 0;
    assert(all.len() == rest.len());
    while rest.len() > 0
        invariant
            0 <= i <= all.len(),
            all.len() <= usize::MAX,
            i + rest.len() == all.len(),
            rest@ == all.subrange(i as int, all.len() as int),
            field_views(r@) == kept_fields(field_views(all.take(i as int))),
        decreases rest.len(),
    {
        let f = rest.remove(0);
        assert(f == all[i as int]);
        let lv = chars_of(f.label.as_str());
        let lt = trim_ws(&lv);
        let vv = chars_of(f.value.as_str());
        let vt = trim_ws(&vv);
        let ghost before = field_views(r@);
        assert(field_views(all.take(i + 1)).drop_last() =~= field_views(all.take(i as int)));
        assert(field_views(all.take(i + 1)).last() == (f.label@, f.value@));
        if lt.len() > 0 || vt.len() > 0 {
            let ghost fv = (f.label@, f.value@);
            r.push(f);
            assert(field_views(r@) =~= before.push(fv));
        }
        i = i + 1;
        assert(rest@ =~= all.subrange(i as int, all.len() as int));
    }
    assert(all.take(i as int) =~= all);
    r
}

// ---------------------------------------------------------------------------
// Due dates.
// ---------------------------------------------------------------------------

/// A reminder: the profile, which date is due (`续费` renewal or `到期`
/// expiry) and in how many days.
pub struct DueView {
    pub profile: EsimProfileView,
    pub kind: Seq<char>,
    pub days_left: int,
}

pub open spec fn date_of(text: Option<Seq<char>>) -> Option<i32> {
    match text {
        Some(t) => ymd_days(t),
        None => None,
    }
}

/// The earlier of the renewal and the expiry date that parse, the renewal
/// where they fall on the same day.
pub open spec fn earliest_date(p: EsimProfileView) -> Option<(Seq<char>, int)> {
    match (date_of(p.renewal_date), date_of(p.expiry_date)) {
        (Some(r), Some(e)) => if e < r {
            Some(("到期"@, e as int))
        } else {
            Some(("续费"@, r as int))
        },
        (Some(r), None) => Some(("续费"@, r as int)),
        (None, Some(e)) => Some(("到期"@, e as int)),
        (None, None) => None,
    }
}

/// The reminder for a profile when its earliest date is between today and
/// `days` days from today, both included.
pub open spec fn due_entry(p: EsimProfileView, today: int, days: int) -> Option<DueView> {
    match earliest_date(p) {
        Some((kind, date)) => {
            let delta = date - today;
            if 0 <= delta && delta <= days {
                Some(DueView { profile: p, kind, days_left: delta })
            } else {
                None
            }
        },
        None => None,
    }
}

/// The reminders for the profiles in the order given.
pub open spec fn due_entries(ps: Seq<EsimProfileView>, today: int, days: int) -> Seq<DueView>
    decreases ps.len(),
{
    if ps.len() == 0 {
        Seq::empty()
    } else {
        let rest = due_entries(ps.drop_last(), today, days);
        match due_entry(ps.last(), today, days) {
            Some(d) => rest.push(d),
            None => rest,
        }
    }
}

pub open spec fn due_views(v: Seq<(EsimProfile, String, i64)>) -> Seq<DueView> {
    v.map_values(
        |e: (EsimProfile, String, i64)| DueView { profile: e.0@, kind: e.1@, days_left: e.2 as int },
    )
}

fn parse_opt_date(text: &Option<String>) -> (r: Option<i32>)
    ensures
        r == date_of(opt_chars(*text)),
{
    match text {
        Some(t) => parse_ymd_days(t.as_str()),
        None => None,
    }
}

/// The saved eSIM profiles.
pub struct EsimStore {
    profiles: Vec<EsimProfile>,
}

impl EsimStore {
    pub closed spec fn saved(&self) -> Seq<EsimProfileView> {
        profile_views(self.profiles@)
    }

    /// A store over the profiles read from disk.
    pub fn load(profiles: Vec<EsimProfile>) -> (s: Self)
        ensures
            s.saved() == profile_views(profiles@),
    {
        EsimStore { profiles }
    }

    /// The profiles ordered by lower-cased name.
    pub fn list(&self) -> (r: Vec<EsimProfile>)
        ensures
            profile_views(r@) == by_name(self.saved()),
    {
        let mut sorted: Vec<EsimProfile> = Vec::new();
        let mut keys: Vec<Vec<char>> = Vec::new();
        let mut i: usize = 0;
        while i < self.profiles.len()
            invariant
                0 <= i <= self.profiles.len(),
                keys.len() == sorted.len(),
                forall|j: int| 0 <= j < keys.len() ==> #[trigger] keys@[j]@ == name_key(sorted@[j]@),
                profile_views(sorted@) == by_name(profile_views(self.profiles@.take(i as int))),
            decreases self.profiles.len() - i,
        {
            let p = self.profiles[i].clone();
            let lower = to_lowercase(p.name.as_str());
            let key = chars_of(lower.as_str());
            let ghost sv = profile_views(sorted@);
            let mut k: usize = 0;
            while k < sorted.len()
                invariant_except_break
                    0 <= k <= sorted.len(),
                    keys.len() == sorted.len(),
                    sv == profile_views(sorted@),
                    key@ == name_key(p@),
                    forall|j: int| 0 <= j < keys.len() ==> #[trigger] keys@[j]@ == name_key(sorted@[j]@),
                    name_pos_from(sv, p@, 0) == name_pos_from(sv, p@, k as int),
                ensures
                    k <= sorted.len(),
                    name_pos_from(sv, p@, 0) == k,
                decreases sorted.len() - k,
            {
                assert(sv[k as int] == sorted@[k as int]@);
                if crate::state::text_less(&key, &keys[k]) {
                    break;
                }
                k = k + 1;
            }
            proof {
                lemma_name_pos_from(sv, p@, 0);
                let pre = profile_views(self.profiles@.take(i as int));
                let nxt = profile_views(self.profiles@.take(i + 1));
                assert(nxt.drop_last() =~= pre);
                assert(nxt.last() == self.profiles@[i as int]@);
            }
            let ghost pv = p@;
            let ghost old_keys = keys@;
            let ghost old_sorted = sorted@;
            sorted.insert(k, p);
            keys.insert(k, key);
            proof {
                assert(profile_views(sorted@) =~= sv.insert(k as int, pv));
                assert forall|j: int| 0 <= j < keys.len() implies #[trigger] keys@[j]@ == name_key(
                    sorted@[j]@,
                ) by {
                    if j < k {
                        assert(keys@[j] == old_keys[j] && sorted@[j] == old_sorted[j]);
                    } else if j > k {
                        assert(keys@[j] == old_keys[j - 1] && sorted@[j] == old_sorted[j - 1]);
                    }
                }
            }
            i = i + 1;
        }
        assert(self.profiles@.take(self.profiles.len() as int) =~= self.profiles@);
        sorted
    }

    /// Saves a profile at `now`, giving a new profile the id `fresh_id`: the
    /// normalised profile replaces the saved one with its id, or is appended.
    /// Returns the profile as saved.
    pub fn save_at(&mut self, profile: EsimProfile, now: String, fresh_id: String) -> (saved_profile: EsimProfile)
        ensures
            saved_profile@ == normalized_profile(profile@, now@, fresh_id@),
            final(self).saved() == stored_profiles(old(self).saved(), saved_profile@),
    {
        let mut profile = profile;
        let ghost p0 = profile@;
        let ghost nv = now@;
        let ghost fv = fresh_id@;
        let iv = chars_of(profile.id.as_str());
        let it = trim_ws(&iv);
        let cv = chars_of(profile.created_at.as_str());
        let ct = trim_ws(&cv);
        if it.len() == 0 {
            profile.id = fresh_id;
            profile.created_at = now.clone();
        } else if ct.len() == 0 {
            profile.created_at = now.clone();
        }
        profile.updated_at = now;
        let ccv = chars_of(profile.country_code.as_str());
        let cct = trim_ws(&ccv);
        let ccu = ascii_upper_chars(&cct);
        profile.country_code = string_of(&ccu);
        let mut tags: Vec<String> = Vec::new();
        std::mem::swap(&mut tags, &mut profile.tags);
        profile.tags = clean_tags(tags);
        let mut fields: Vec<CustomField> = Vec::new();
        std::mem::swap(&mut fields, &mut profile.custom_fields);
        profile.custom_fields = keep_fields(fields);
        assert(profile@ == normalized_profile(p0, now@, fresh_id@));
        let ghost ps = profile_views(self.profiles@);
        match self.find_profile(&profile.id) {
            Some(k) => {
                let ghost pv = profile@;
                let copy = profile.clone();
                self.profiles.set(k, copy);
                assert(profile_views(self.profiles@) =~= ps.update(k as int, pv));
            },
            None => {
                let ghost pv = profile@;
                let copy = profile.clone();
                self.profiles.push(copy);
                assert(profile_views(self.profiles@) =~= ps.push(pv));
            },
        }
        profile
    }

    fn find_profile(&self, id: &String) -> (r: Option<usize>)
        ensures
            r matches Some(k) ==> profile_index_from(self.saved(), id@, 0) == Some(k as int) && k
                < self.profiles@.len(),
            r is None ==> profile_index_from(self.saved(), id@, 0) is None,
    {
        let ghost ps = profile_views(self.profiles@);
        let mut i: usize = 0;
        while i < self.profiles.len()
            invariant
                0 <= i <= self.profiles.len(),
                ps == profile_views(self.profiles@),
                profile_index_from(ps, id@, 0) == profile_index_from(ps, id@, i as int),
            decreases self.profiles.len() - i,
        {
            assert(ps[i as int] == self.profiles@[i as int]@);
            if self.profiles[i].id == *id {
                return Some(i);
            }
            i = i + 1;
        }
        None
    }

    /// Saves a profile now; a new profile gets a random (version 4) UUID.
    pub fn save(&mut self, profile: EsimProfile) -> (saved_profile: EsimProfile)
        ensures
            exists|now: Seq<char>, fresh_id: Seq<char>|
                saved_profile@ == normalized_profile(profile@, now, fresh_id)
                    && final(self).saved() == stored_profiles(old(self).saved(), saved_profile@),
    {
        let now = now_rfc3339();
        let fresh_id = uuid_v4_text();
        let ghost t = now@;
        let ghost f = fresh_id@;
        let r = self.save_at(profile, now, fresh_id);
        assert(r@ == normalized_profile(profile@, t, f));
        r
    }

    /// Removes every profile with this id.
    pub fn delete(&mut self, id: &str)
        ensures
            final(self).saved() == without_profile(old(self).saved(), id@),
    {
        let ghost ps = profile_views(self.profiles@);
        let target = str_to_string(id);
        let mut kept: Vec<EsimProfile> = Vec::new();
        let mut rest: Vec<EsimProfile> = Vec::new();
        std::mem::swap(&mut rest, &mut self.profiles);
        let mut i: usize = 0;
        let ghost all = rest@;
        assert(all.len() == rest.len());
        while rest.len() > 0
            invariant
                0 <= i <= all.len(),
                all.len() <= usize::MAX,
                i + rest.len() == all.len(),
                rest@ == all.subrange(i as int, all.len() as int),
                profile_views(kept@) == without_profile(profile_views(all.take(i as int)), id@),
                target@ == id@,
            decreases rest.len(),
        {
            let p = rest.remove(0);
            assert(p == all[i as int]);
            let ghost prev = profile_views(kept@);
            assert(profile_views(all.take(i + 1)).drop_last() =~= profile_views(
                all.take(i as int),
            ));
            assert(profile_views(all.take(i + 1)).last() == p@);
            if p.id != target {
                kept.push(p);
                assert(profile_views(kept@) =~= prev.push(p@));
            }
            i = i + 1;
            assert(rest@ =~= all.subrange(i as int, all.len() as int));
        }
        assert(all.take(i as int) =~= all);
        self.profiles = kept;
    }

    /// The reminders due within `days` days of `today` (a day number as
    /// `Datelike::num_days_from_ce` counts), in name order.
    pub fn due_within_on(&self, days: i64, today: i32) -> (r: Vec<(EsimProfile, String, i64)>)
        ensures
            due_views(r@) == due_entries(by_name(self.saved()), today as int, days as int),
    {
        let listed = self.list();
        let mut out: Vec<(EsimProfile, String, i64)> = Vec::new();
        let mut i: usize = 0;
        while i < listed.len()
            invariant
                0 <= i <= listed.len(),
                due_views(out@) == due_entries(profile_views(listed@.take(i as int)), today as int, days as int),
            decreases listed.len() - i,
        {
            let p = listed[i].clone();
            let renewal = parse_opt_date(&p.renewal_date);
            let expiry = parse_opt_date(&p.expiry_date);
            let pick: Option<(&str, i32)> = match (renewal, expiry) {
                (Some(r), Some(e)) => if e < r {
                    Some(("到期", e))
                } else {
                    Some(("续费", r))
                },
                (Some(r), None) => Some(("续费", r)),
                (None, Some(e)) => Some(("到期", e)),
                (None, None) => None,
            };
            proof {
                let pre = profile_views(listed@.take(i as int));
                let nxt = profile_views(listed@.take(i + 1));
                assert(nxt.drop_last() =~= pre);
                assert(nxt.last() == p@);
            }
            let ghost before = due_views(out@);
            match pick {
                Some((kind, date)) => {
                    let delta: i64 = (date as i64) - (today as i64);
                    if 0 <= delta && delta <= days {
                        let ghost pv = p@;
                        out.push((p, str_to_string(kind), delta));
                        assert(due_views(out@) =~= before.push(
                            DueView { profile: pv, kind: kind@, days_left: delta as int },
                        ));
                    }
                },
                None => {},
            }
            i = i + 1;
        }
        assert(listed@.take(listed.len() as int) =~= listed@);
        out
    }

    /// The reminders due within `days` days of today's local date.
    pub fn due_within(&self, days: i64) -> (r: Vec<(EsimProfile, String, i64)>)
        ensures
            exists|today: i32| due_views(r@) == due_entries(by_name(self.saved()), today as int, days as int),
    {
        let today = today_local_days();
        self.due_within_on(days, today)
    }
}

/// The profiles after saving the normalised `p`: it replaces the profile with
/// its id, or is appended.
pub open spec fn stored_profiles(ps: Seq<EsimProfileView>, p: EsimProfileView) -> Seq<EsimProfileView> {
    match profile_index_from(ps, p.id, 0) {
        Some(k) => ps.update(k, p),
        None => ps.push(p),
    }
}

/// Profiles in name order: no profile's key is greater than a later one's.
pub open spec fn is_by_name(ps: Seq<EsimProfileView>) -> bool {
    forall|i: int, j: int|
        0 <= i < j < ps.len() ==> !text_lt(name_key(#[trigger] ps[j]), name_key(#[trigger] ps[i]))
}

pub proof fn lemma_name_pos_bounds(ps: Seq<EsimProfileView>, p: EsimProfileView, i: int)
    requires
        0 <= i <= ps.len(),
    ensures
        forall|j: int| i <= j < name_pos_from(ps, p, i) ==> !text_lt(name_key(p), name_key(#[trigger] ps[j])),
        name_pos_from(ps, p, i) < ps.len() ==> text_lt(name_key(p), name_key(ps[name_pos_from(ps, p, i)])),
    decreases ps.len() - i,
{
    lemma_name_pos_from(ps, p, i);
    if i < ps.len() && !text_lt(name_key(p), name_key(ps[i])) {
        lemma_name_pos_bounds(ps, p, i + 1);
    }
}

/// The wallet list is in name order.
pub proof fn lemma_by_name_is_ordered(ps: Seq<EsimProfileView>)
    ensures
        is_by_name(by_name(ps)),
    decreases ps.len(),
{
    if ps.len() > 0 {
        let s = by_name(ps.drop_last());
        let p = ps.last();
        lemma_by_name_is_ordered(ps.drop_last());
        lemma_name_pos_from(s, p, 0);
        lemma_name_pos_bounds(s, p, 0);
        let k = name_pos_from(s, p, 0);
        let r = s.insert(k, p);
        assert forall|i: int, j: int| 0 <= i < j < r.len() implies !text_lt(
            name_key(#[trigger] r[j]),
            name_key(#[trigger] r[i]),
        ) by {
            if i < k && j < k {
                assert(r[i] == s[i] && r[j] == s[j]);
            } else if i < k && j == k {
                assert(r[i] == s[i] && r[j] == p);
            } else if i < k {
                assert(r[i] == s[i] && r[j] == s[j - 1]);
            } else if i == k {
                let x = s[j - 1];
                assert(r[i] == p && r[j] == x);
                let a = name_key(p);
                let b = name_key(s[k]);
                let c = name_key(x);
                if j - 1 > k {
                    assert(!text_lt(c, b));
                    lemma_text_lt_total(b, c);
                    lemma_text_lt_trans(a, b, c);
                }
                lemma_text_lt_asym(a, c);
            } else {
                assert(r[i] == s[i - 1] && r[j] == s[j - 1]);
            }
        }
    }
}

/// Every reminder falls within the window, and names the earliest date of its profile.
pub proof fn lemma_due_within_window(ps: Seq<EsimProfileView>, today: int, days: int)
    ensures
        forall|i: int|
            0 <= i < due_entries(ps, today, days).len() ==> 0 <= (#[trigger] due_entries(
                ps,
                today,
                days,
            )[i]).days_left <= days,
    decreases ps.len(),
{
    if ps.len() > 0 {
        lemma_due_within_window(ps.drop_last(), today, days);
    }
}

/// The reminder for a profile names the earliest of its renewal and expiry
/// dates that parse (the renewal where both fall on one day), and counts the
/// days from today to it. A profile whose earliest date lies between today and
/// `days` days from today always gets that reminder; no other profile gets one.
pub proof fn lemma_due_entry_is_earliest(p: EsimProfileView, today: int, days: int)
    ensures
        due_entry(p, today, days) matches Some(d) ==> {
            &&& d.profile == p
            &&& 0 <= d.days_left <= days
            &&& (date_of(p.renewal_date) matches Some(r) ==> today + d.days_left <= r)
            &&& (date_of(p.expiry_date) matches Some(e) ==> today + d.days_left <= e)
            &&& {
                ||| (d.kind == "续费"@ && date_of(p.renewal_date) == Some((today + d.days_left) as i32)
                    && i32::MIN <= today + d.days_left <= i32::MAX)
                ||| (d.kind == "到期"@ && date_of(p.expiry_date) == Some((today + d.days_left) as i32)
                    && i32::MIN <= today + d.days_left <= i32::MAX)
            }
        },
        (date_of(p.renewal_date) matches Some(r) && (today <= r <= today + days && (date_of(
            p.expiry_date,
        ) matches Some(e) ==> r <= e))) ==> (due_entry(p, today, days) matches Some(d) && d.kind
            == "续费"@ && d.days_left == date_of(p.renewal_date).unwrap() - today),
        (date_of(p.expiry_date) matches Some(e) && (today <= e <= today + days && (date_of(
            p.renewal_date,
        ) matches Some(r) ==> e < r))) ==> (due_entry(p, today, days) matches Some(d) && d.kind
            == "到期"@ && d.days_left == date_of(p.expiry_date).unwrap() - today),
{
}

/// The reminders of a list are the reminders of its profiles: each comes from
/// one of them, and every profile that gets a reminder has it in the list.
pub proof fn lemma_due_entries_per_profile(ps: Seq<EsimProfileView>, today: int, days: int)
    ensures
        forall|j: int|
            0 <= j < due_entries(ps, today, days).len() ==> exists|i: int|
                0 <= i < ps.len() && due_entry(ps[i], today, days) == Some(
                    #[trigger] due_entries(ps, today, days)[j],
                ),
        forall|i: int|
            0 <= i < ps.len() && (#[trigger] due_entry(ps[i], today, days)) is Some
                ==> due_entries(ps, today, days).contains(due_entry(ps[i], today, days).unwrap()),
    decreases ps.len(),
{
    if ps.len() > 0 {
        let init = ps.drop_last();
        lemma_due_entries_per_profile(init, today, days);
        let rest = due_entries(init, today, days);
        let all = due_entries(ps, today, days);
        assert forall|j: int| 0 <= j < all.len() implies exists|i: int|
            0 <= i < ps.len() && due_entry(ps[i], today, days) == Some(#[trigger] all[j]) by {
            if j < rest.len() {
                assert(all[j] == rest[j]);
                let i = choose|i: int|
                    0 <= i < init.len() && due_entry(init[i], today, days) == Some(#[trigger] rest[j]);
                assert(ps[i] == init[i]);
            } else {
                assert(due_entry(ps[ps.len() - 1], today, days) == Some(all[j]));
            }
        }
        assert forall|i: int|
            0 <= i < ps.len() && (#[trigger] due_entry(ps[i], today, days)) is Some implies all.contains(
            due_entry(ps[i], today, days).unwrap(),
        ) by {
            if i < ps.len() - 1 {
                assert(ps[i] == init[i]);
                assert(due_entry(init[i], today, days) is Some);
                let w = choose|w: int| 0 <= w < rest.len() && rest[w] == due_entry(init[i], today, days).unwrap();
                assert(all[w] == rest[w]);
            } else {
                assert(all[all.len() - 1] == due_entry(ps[i], today, days).unwrap());
            }
        }
    }
}

/// A saved profile can be found under its id afterwards, as saved.
pub proof fn lemma_saved_profile_is_found(ps: Seq<EsimProfileView>, p: EsimProfileView)
    ensures
        profile_index_from(stored_profiles(ps, p), p.id, 0) matches Some(k) && stored_profiles(ps, p)[k]
            == p,
{
    lemma_profile_index_from(ps, p.id, 0);
    match profile_index_from(ps, p.id, 0) {
        Some(k) => {
            lemma_profile_index_from_same(ps, ps.update(k, p), p.id, 0, k);
        },
        None => {
            lemma_profile_index_append(ps, p, 0);
        },
    }
}

pub proof fn lemma_profile_index_append(ps: Seq<EsimProfileView>, p: EsimProfileView, i: int)
    requires
        0 <= i <= ps.len(),
        profile_index_from(ps, p.id, i) is None,
    ensures
        profile_index_from(ps.push(p), p.id, i) == Some(ps.len() as int),
    decreases ps.len() - i,
{
    if i < ps.len() {
        assert(ps.push(p)[i] == ps[i]);
        lemma_profile_index_append(ps, p, i + 1);
    }
}

} // verus!
