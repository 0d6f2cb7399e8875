//! Per-sender conversation metadata (alias, notes, pin), kept in the order
//! it was first saved. Reading and writing the JSON file is the application's part.

use vstd::prelude::*;

use crate::model::ConversationMeta;
use crate::text::{chars_of, str_to_string, string_of, trim, trim_ws};
use crate::time::now_rfc3339;

verus! {

/// First entry at or after `i` for `sender`.
pub open spec fn meta_index_from(items: Seq<ConversationMeta>, sender: Seq<char>, i: int) -> Option<
    int,
>
    decreases items.len() - i,
{
    if i < 0 || i >= items.len() {
        None
    } else if items[i].sender@ == sender {
        Some(i)
    } else {
        meta_index_from(items, sender, i + 1)
    }
}

pub proof fn lemma_meta_index_from(items: Seq<ConversationMeta>, sender: Seq<char>, i: int)
    requires
        0 <= i,
    ensures
        meta_index_from(items, sender, i) matches Some(k) ==> i <= k < items.len()
            && items[k].sender@ == sender,
    decreases items.len() - i,
{
    if i < items.len() && items[i].sender@ != sender {
        lemma_meta_index_from(items, sender, i + 1);
    }
}

/// The entry as saved: sender, alias and notes trimmed, stamped with `now`.
pub open spec fn saved_meta(meta: ConversationMeta, now: Seq<char>, m: ConversationMeta) -> bool {
    &&& m.sender@ == trim(meta.sender@)
    &&& m.alias@ == trim(meta.alias@)
    &&& m.notes@ == trim(meta.notes@)
    &&& m.pinned == meta.pinned
    &&& m.updated_at@ == now
}

/// The entries after saving `m`: it replaces the entry for its sender, or is appended.
pub open spec fn with_meta(items: Seq<ConversationMeta>, m: ConversationMeta) -> Seq<ConversationMeta> {
    match meta_index_from(items, m.sender@, 0) {
        Some(k) => items.update(k, m),
        None => items.push(m),
    }
}

/// What saving `meta` at `now` does: a blank sender is refused and changes
/// nothing; otherwise the normalised entry is stored and returned.
pub open spec fn meta_saved(
    before: Seq<ConversationMeta>,
    after: Seq<ConversationMeta>,
    meta: ConversationMeta,
    now: Seq<char>,
    r: Result<ConversationMeta, String>,
) -> bool {
    if trim(meta.sender@).len() == 0 {
        &&& after == before
        &&& r matches Err(e) && e@ == "sender is required"@
    } else {
        r matches Ok(m) && saved_meta(meta, now, m) && after == with_meta(before, m)
    }
}

/// The saved conversation entries.
pub struct ConversationStore {
    items: Vec<ConversationMeta>,
}

impl ConversationStore {
    pub closed spec fn entries(&self) -> Seq<ConversationMeta> {
        self.items@
    }

    /// A store over the entries read from disk.
    pub fn load(items: Vec<ConversationMeta>) -> (s: Self)
        ensures
            s.entries() == items@,
    {
        ConversationStore { items }
    }

    pub fn list(&self) -> (r: Vec<ConversationMeta>)
        ensures
            r@ == self.entries(),
    {
        let mut r: Vec<ConversationMeta> = Vec::new();
        let mut i: usize = 0;
        while i < self.items.len()
            invariant
                0 <= i <= self.items.len(),
                r@ == self.items@.take(i as int),
            decreases self.items.len() - i,
        {
            r.push(self.items[i].clone());
            assert(r@ =~= self.items@.take(i + 1));
            i = i + 1;
        }
        assert(self.items@.take(self.items.len() as int) =~= self.items@);
        r
    }

    fn find(&self, sender: &str) -> (r: Option<usize>)
        ensures
            r matches Some(k) ==> meta_index_from(self.entries(), sender@, 0) == Some(k as int)
                && k < self.entries().len(),
            r is None ==> meta_index_from(self.entries(), sender@, 0) is None,
    {
        let target = str_to_string(sender);
        let mut i: usize = 0;
        while i < self.items.len()
            invariant
                0 <= i <= self.items.len(),
                target@ == sender@,
                meta_index_from(self.items@, sender@, 0) == meta_index_from(
                    self.items@,
                    sender@,
                    i as int,
                ),
            decreases self.items.len() - i,
        {
            if self.items[i].sender == target {
                return Some(i);
            }
            i = i + 1;
        }
        None
    }

    /// The entry for `sender`, if one was saved.
    pub fn get(&self, sender: &str) -> (r: Option<ConversationMeta>)
        ensures
            match meta_index_from(self.entries(), sender@, 0) {
                Some(k) => r == Some(self.entries()[k]),
                None => r is None,
            },
    {
        match self.find(sender) {
            Some(k) => Some(self.items[k].clone()),
            None => None,
        }
    }

    /// Saves `meta` stamped with `now`; see `meta_saved`.
    pub fn save_at(&mut self, meta: ConversationMeta, now: String) -> (r: Result<ConversationMeta, String>)
        ensures
            meta_saved(old(self).entries(), final(self).entries(), meta, now@, r),
    {
        let sv = chars_of(meta.sender.as_str());
        let sender = trim_ws(&sv);
        if sender.len() == 0 {
            return Err(str_to_string("sender is required"));
        }
        let av = chars_of(meta.alias.as_str());
        let alias = trim_ws(&av);
        let nv = chars_of(meta.notes.as_str());
        let notes = trim_ws(&nv);
        let m = ConversationMeta {
            sender: string_of(&sender),
            alias: string_of(&alias),
            notes: string_of(&notes),
            pinned: meta.pinned,
            updated_at: now,
        };
        match self.find(m.sender.as_str()) {
            Some(k) => {
                self.items.set(k, m.clone());
            },
            None => {
                self.items.push(m.clone());
            },
        }
        Ok(m)
    }

    /// Saves `meta` stamped with the current UTC time.
    pub fn save(&mut self, meta: ConversationMeta) -> (r: Result<ConversationMeta, String>)
        ensures
            exists|now: Seq<char>| meta_saved(old(self).entries(), final(self).entries(), meta, now, r),
    {
        let now = now_rfc3339();
        let ghost t = now@;
        let r = self.save_at(meta, now);
        assert(meta_saved(old(self).entries(), self.entries(), meta, t, r));
        r
    }
}

/// Saving an entry and reading it back by its sender gives the entry as saved.
pub proof fn lemma_saved_meta_is_found(items: Seq<ConversationMeta>, m: ConversationMeta)
    ensures
        meta_index_from(with_meta(items, m), m.sender@, 0) matches Some(k) && with_meta(items, m)[k] == m,
{
    lemma_meta_index_from(items, m.sender@, 0);
    match meta_index_from(items, m.sender@, 0) {
        Some(k) => {
            lemma_meta_index_same(items, items.update(k, m), m.sender@, 0, k);
        },
        None => {
            lemma_meta_index_absent(items, m.sender@, 0);
            lemma_meta_index_append(items, m, 0);
        },
    }
}

pub proof fn lemma_meta_index_same(
    items: Seq<ConversationMeta>,
    u: Seq<ConversationMeta>,
    sender: Seq<char>,
    i: int,
    k: int,
)
    requires
        0 <= i <= k < items.len(),
        u.len() == items.len(),
        forall|j: int| 0 <= j < items.len() && j != k ==> #[trigger] u[j] == items[j],
        u[k].sender@ == sender,
        meta_index_from(items, sender, i) == Some(k),
    ensures
        meta_index_from(u, sender, i) == Some(k),
    decreases k - i,
{
    if i < k {
        lemma_meta_index_same(items, u, sender, i + 1, k);
    }
}

pub proof fn lemma_meta_index_absent(items: Seq<ConversationMeta>, sender: Seq<char>, i: int)
    requires
        0 <= i,
        meta_index_from(items, sender, i) is None,
    ensures
        forall|j: int| i <= j < items.len() ==> (#[trigger] items[j]).sender@ != sender,
    decreases items.len() - i,
{
    if i < items.len() {
        lemma_meta_index_absent(items, sender, i + 1);
    }
}

pub proof fn lemma_meta_index_append(items: Seq<ConversationMeta>, m: ConversationMeta, i: int)
    requires
        0 <= i <= items.len(),
        forall|j: int| i <= j < items.len() ==> (#[trigger] items[j]).sender@ != m.sender@,
    ensures
        meta_index_from(items.push(m), m.sender@, i) == Some(items.len() as int),
    decreases items.len() - i,
{
    if i < items.len() {
        assert(items.push(m)[i] == items[i]);
        lemma_meta_index_append(items, m, i + 1);
    }
}

} // verus!
