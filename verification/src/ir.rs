//! Unified intermediate representation (IR).
//!
//! The four protocols translate through the IR rather than pairwise. The IR is
//! the union of what the protocols can express; what cannot be normalised goes
//! into [`Extensions`], keyed `"<protocol>.<field>"`.

use vstd::prelude::*;
use crate::error::Protocol;
use crate::json::{Json, JsonNumber, JsonV, NumberV, member_get, members_view, lemma_members_view};
use crate::text::{text_eq, owned, concat, strip_prefix, split_once, contains, index_of, contains_seq, remove_char, without_char, text_lt, text_less};

verus! {

/// Optional text, viewed as optional characters.
pub open spec fn ov(o: Option<String>) -> Option<Seq<char>> {
    match o {
        Some(s) => Some(s@),
        None => None,
    }
}

/// Copy of an optional text.
pub fn dup_opt(o: &Option<String>) -> (res: Option<String>)
    ensures
        ov(res) == ov(*o),
{
    match o {
        Some(s) => Some(owned(s.as_str())),
        None => None,
    }
}

/// Protocol-specific fields that the IR does not normalise, keyed
/// `"<protocol>.<field>"`, each name once and in ascending name order, as a sorted map
/// holds them.
#[derive(Debug, Clone, PartialEq)]
pub struct Extensions {
    entries: Vec<(String, Json)>,
}

impl View for Extensions {
    type V = Seq<(Seq<char>, JsonV)>;

    closed spec fn view(&self) -> Seq<(Seq<char>, JsonV)> {
        members_view(self.entries@)
    }
}

impl Extensions {
    /// Value stored under `key`.
    pub open spec fn lookup(self, key: Seq<char>) -> Option<JsonV> {
        member_get(self@, key)
    }

    /// An empty set of extensions.
    pub fn new() -> (res: Extensions)
        ensures
            res@.len() == 0,
            names_ascending(res@),
            forall|k: Seq<char>| res.lookup(k) is None,
    {
        let entries: Vec<(String, Json)> = Vec::new();
        proof {
            lemma_members_view(entries@);
        }
        Extensions { entries }
    }

    /// Number of stored fields.
    pub fn len(&self) -> (res: usize)
        ensures
            res == self@.len(),
    {
        proof {
            lemma_members_view(self.entries@);
        }
        self.entries.len()
    }

    /// Key and value of the `i`-th stored field.
    pub fn entry(&self, i: usize) -> (res: (&str, &Json))
        requires
            i < self@.len(),
        ensures
            self@[i as int] == (res.0@, res.1@),
    {
        proof {
            lemma_members_view(self.entries@);
        }
        (self.entries[i].0.as_str(), &self.entries[i].1)
    }

    /// Value stored under `key`.
    pub fn get(&self, key: &str) -> (res: Option<&Json>)
        ensures
            crate::json::opt_view(res) == self.lookup(key@),
    {
        proof {
            lemma_members_view(self.entries@);
        }
        let ghost m = self@;
        let mut i: usize = 0;
        assert(m.subrange(0, m.len() as int) =~= m);
        while i < self.entries.len()
            invariant
                i <= self.entries.len(),
                m == members_view(self.entries@),
                m.len() == self.entries.len(),
                forall|k: int| 0 <= k < self.entries.len() ==> #[trigger] m[k] == (self.entries@[k].0@, self.entries@[k].1@),
                member_get(m, key@) == member_get(m.subrange(i as int, m.len() as int), key@),
            decreases self.entries.len() - i,
        {
            let ghost rest = m.subrange(i as int, m.len() as int);
            assert(rest.drop_first() =~= m.subrange(i + 1, m.len() as int));
            assert(rest[0] == m[i as int]);
            if text_eq(self.entries[i].0.as_str(), key) {
                return Some(&self.entries[i].1);
            }
            i = i + 1;
        }
        None
    }

    /// The given members as they stand, in their order: the codecs build wire bodies this
    /// way before restoring extension fields into them.
    pub(crate) fn from_entries(entries: Vec<(String, Json)>) -> (res: Extensions)
        ensures
            res@ == members_view(entries@),
    {
        Extensions { entries }
    }

    /// The entries as a JSON object, in order.
    pub fn into_json(self) -> (res: Json)
        ensures
            res@ == JsonV::Object(self@),
    {
        Json::object(self.entries)
    }

    /// Stores `value` under `key`, replacing an earlier value; a new name goes before the
    /// first name that sorts after it, so names stay in ascending order.
    pub fn insert(&mut self, key: String, value: Json)
        ensures
            final(self)@ == ext_insert(old(self)@, key@, value@),
            names_ascending(old(self)@) ==> names_ascending(final(self)@),
            final(self).lookup(key@) == Some(value@),
            forall|k: Seq<char>| k != key@ ==> final(self).lookup(k) == old(self).lookup(k),
    {
        proof {
            lemma_members_view(self.entries@);
            if names_ascending(self@) {
                law_ext_insert_sorted(self@, key@, value@);
            }
        }
        let ghost m0 = self@;
        let mut i: usize = 0;
        while i < self.entries.len()
            invariant
                i <= self.entries.len(),
                self.entries@ == old(self).entries@,
                m0 == members_view(self.entries@),
                m0.len() == self.entries.len(),
                forall|k: int| 0 <= k < self.entries.len() ==> #[trigger] m0[k] == (self.entries@[k].0@, self.entries@[k].1@),
                forall|k: int| 0 <= k < i ==> m0[k].0 != key@,
            decreases self.entries.len() - i,
        {
            if text_eq(self.entries[i].0.as_str(), key.as_str()) {
                let ghost vv = value@;
                self.entries.set(i, (key, value));
                proof {
                    lemma_members_view(self.entries@);
                    lemma_member_get_update(m0, i as int, vv);
                    assert(self@ =~= m0.update(i as int, (m0[i as int].0, vv)));
                    lemma_member_index(m0, key@);
                    assert(member_index(m0, key@) == Some(i as int));
                }
                return;
            }
            i = i + 1;
        }
        let ghost kv = key@;
        let ghost vv = value@;
        let mut p: usize = 0;
        assert(m0.subrange(0, m0.len() as int) =~= m0);
        while p < self.entries.len() && !text_less(key.as_str(), self.entries[p].0.as_str())
            invariant
                p <= self.entries.len(),
                self.entries@ == old(self).entries@,
                m0 == members_view(self.entries@),
                m0.len() == self.entries.len(),
                forall|k: int| 0 <= k < self.entries.len() ==> #[trigger] m0[k] == (self.entries@[k].0@, self.entries@[k].1@),
                name_pos(m0, kv) == p + name_pos(m0.subrange(p as int, m0.len() as int), kv),
                kv == key@,
            decreases self.entries.len() - p,
        {
            let ghost rest = m0.subrange(p as int, m0.len() as int);
            assert(rest[0] == m0[p as int]);
            assert(rest.drop_first() =~= m0.subrange(p + 1, m0.len() as int));
            p = p + 1;
        }
        proof {
            let rest = m0.subrange(p as int, m0.len() as int);
            if p < m0.len() {
                assert(rest[0] == m0[p as int]);
            }
            assert(name_pos(m0, kv) == p);
        }
        self.entries.insert(p, (key, value));
        proof {
            lemma_members_view(self.entries@);
            assert(self@ =~= m0.insert(p as int, (kv, vv))) by {
                old(self).entries@.insert_ensures(p as int, (key, value));
                m0.insert_ensures(p as int, (kv, vv));
            }
            lemma_member_index(m0, kv);
            lemma_member_get_insert(m0, p as int, kv, vv);
        }
    }
}

/// Position of the first member named `key`.
pub open spec fn member_index(m: Seq<(Seq<char>, JsonV)>, key: Seq<char>) -> Option<int>
    decreases m.len(),
{
    if m.len() == 0 {
        None
    } else if m[0].0 == key {
        Some(0)
    } else {
        match member_index(m.drop_first(), key) {
            Some(i) => Some(i + 1),
            None => None,
        }
    }
}

pub proof fn lemma_member_index(m: Seq<(Seq<char>, JsonV)>, key: Seq<char>)
    ensures
        match member_index(m, key) {
            Some(i) => 0 <= i < m.len() && m[i].0 == key && forall|j: int| 0 <= j < i ==> m[j].0 != key,
            None => forall|j: int| 0 <= j < m.len() ==> m[j].0 != key,
        },
    decreases m.len(),
{
    if m.len() > 0 && m[0].0 != key {
        lemma_member_index(m.drop_first(), key);
        match member_index(m.drop_first(), key) {
            Some(i) => {
                assert forall|j: int| 0 <= j < i + 1 implies m[j].0 != key by {
                    if j > 0 {
                        assert(m[j] == m.drop_first()[j - 1]);
                    }
                }
            },
            None => {
                assert forall|j: int| 0 <= j < m.len() implies m[j].0 != key by {
                    if j > 0 {
                        assert(m[j] == m.drop_first()[j - 1]);
                    }
                }
            },
        }
    }
}

/// The members with `value` stored under `key`: the first such member replaced, else appended.
pub open spec fn ext_insert(m: Seq<(Seq<char>, JsonV)>, key: Seq<char>, value: JsonV) -> Seq<(Seq<char>, JsonV)> {
    match member_index(m, key) {
        Some(i) => m.update(i, (key, value)),
        None => m.insert(name_pos(m, key), (key, value)),
    }
}

/// Where a new member named `key` goes: before the first member whose name comes after it.
pub open spec fn name_pos(m: Seq<(Seq<char>, JsonV)>, key: Seq<char>) -> int
    decreases m.len(),
{
    if m.len() == 0 {
        0
    } else if text_lt(key, m[0].0) {
        0
    } else {
        1 + name_pos(m.drop_first(), key)
    }
}

pub proof fn lemma_name_pos(m: Seq<(Seq<char>, JsonV)>, key: Seq<char>)
    ensures
        0 <= name_pos(m, key) <= m.len(),
        forall|j: int| 0 <= j < name_pos(m, key) ==> !text_lt(key, #[trigger] m[j].0),
        name_pos(m, key) < m.len() ==> text_lt(key, m[name_pos(m, key)].0),
    decreases m.len(),
{
    if m.len() > 0 && !text_lt(key, m[0].0) {
        lemma_name_pos(m.drop_first(), key);
        assert forall|j: int| 0 <= j < name_pos(m, key) implies !text_lt(key, #[trigger] m[j].0) by {
            if j > 0 {
                assert(m[j] == m.drop_first()[j - 1]);
            }
        }
        if name_pos(m, key) < m.len() {
            assert(m[name_pos(m, key)] == m.drop_first()[name_pos(m.drop_first(), key)]);
        }
    }
}

/// Names in strictly ascending character order, the order a sorted map walks them in.
pub open spec fn names_ascending(m: Seq<(Seq<char>, JsonV)>) -> bool {
    forall|i: int, j: int| 0 <= i < j < m.len() ==> text_lt(m[i].0, m[j].0)
}

/// Storing under a name keeps the names strictly ascending, so extensions built from empty ones
/// by `insert` hold each name once, in sorted order.
pub proof fn law_ext_insert_sorted(m: Seq<(Seq<char>, JsonV)>, key: Seq<char>, value: JsonV)
    requires
        names_ascending(m),
    ensures
        names_ascending(ext_insert(m, key, value)),
        names_ascending(Seq::<(Seq<char>, JsonV)>::empty()),
{
    lemma_member_index(m, key);
    match member_index(m, key) {
        Some(i) => {
            let r = m.update(i, (key, value));
            assert forall|a: int, b: int| 0 <= a < b < r.len() implies text_lt(r[a].0, r[b].0) by {
                assert(r[a].0 == m[a].0 && r[b].0 == m[b].0);
            }
        },
        None => {
            lemma_name_pos(m, key);
            let p = name_pos(m, key);
            let r = m.insert(p, (key, value));
            m.insert_ensures(p, (key, value));
            assert forall|j: int| 0 <= j < p implies text_lt(#[trigger] m[j].0, key) by {
                crate::text::lemma_text_lt_order(m[j].0, key, key);
            }
            assert forall|j: int| p <= j < m.len() implies text_lt(key, #[trigger] m[j].0) by {
                if j > p {
                    crate::text::lemma_text_lt_order(key, m[p].0, m[j].0);
                }
            }
            assert forall|a: int, b: int| 0 <= a < b < r.len() implies text_lt(r[a].0, r[b].0) by {
                if a < p { assert(r[a] == m[a]); } else if a > p { assert(r[(a - 1) + 1] == m[a - 1]); }
                if b < p { assert(r[b] == m[b]); } else if b > p { assert(r[(b - 1) + 1] == m[b - 1]); }
                if a < p && b > p {
                    crate::text::lemma_text_lt_order(m[a].0, key, m[b - 1].0);
                }
            }
        },
    }
}

/// Reading after inserting a member whose name `m` lacks.
pub proof fn lemma_member_get_insert(m: Seq<(Seq<char>, JsonV)>, p: int, key: Seq<char>, v: JsonV)
    requires
        0 <= p <= m.len(),
        forall|k: int| 0 <= k < m.len() ==> m[k].0 != key,
    ensures
        member_get(m.insert(p, (key, v)), key) == Some(v),
        forall|k: Seq<char>| k != key ==> member_get(m.insert(p, (key, v)), k) == member_get(m, k),
    decreases p,
{
    let r = m.insert(p, (key, v));
    m.insert_ensures(p, (key, v));
    if p == 0 {
        assert(r[0] == (key, v));
        assert(r.drop_first() =~= m);
        assert forall|k: Seq<char>| k != key implies member_get(r, k) == member_get(m, k) by {
            assert(member_get(r, k) == member_get(r.drop_first(), k));
        }
    } else {
        let d = m.drop_first();
        assert forall|k: int| 0 <= k < d.len() implies d[k].0 != key by {
            assert(d[k] == m[k + 1]);
        }
        lemma_member_get_insert(d, p - 1, key, v);
        assert(r.drop_first() =~= d.insert(p - 1, (key, v)));
        assert(r[0] == m[0]);
        assert forall|k: Seq<char>| k != key implies member_get(r, k) == member_get(m, k) by {
            if m[0].0 != k {
                assert(member_get(r, k) == member_get(r.drop_first(), k));
                assert(member_get(m, k) == member_get(m.drop_first(), k));
            }
        }
        assert(member_get(r, key) == member_get(r.drop_first(), key));
    }
}

/// Reading `key` after appending a member: an earlier member wins, else the new one if it is named `key`.
pub proof fn lemma_member_get_append(m: Seq<(Seq<char>, JsonV)>, x: (Seq<char>, JsonV), key: Seq<char>)
    ensures
        member_get(m.push(x), key) == match member_get(m, key) {
            Some(y) => Some(y),
            None => if x.0 == key { Some(x.1) } else { None },
        },
    decreases m.len(),
{
    let p = m.push(x);
    if m.len() > 0 {
        lemma_member_get_append(m.drop_first(), x, key);
        assert(p.drop_first() =~= m.drop_first().push(x));
    } else {
        assert(p.drop_first() =~= m);
    }
}

/// Reading `key` after storing `value` under it gives `value`; every other key keeps its value.
pub proof fn lemma_ext_insert(m: Seq<(Seq<char>, JsonV)>, key: Seq<char>, value: JsonV)
    ensures
        member_get(ext_insert(m, key, value), key) == Some(value),
        forall|k: Seq<char>| k != key ==> member_get(ext_insert(m, key, value), k) == member_get(m, k),
{
    lemma_member_index(m, key);
    match member_index(m, key) {
        Some(i) => lemma_member_get_update(m, i, value),
        None => {
            lemma_name_pos(m, key);
            lemma_member_get_insert(m, name_pos(m, key), key, value);
        },
    }
}

pub proof fn lemma_member_get_update(m: Seq<(Seq<char>, JsonV)>, i: int, v: JsonV)
    requires
        0 <= i < m.len(),
        forall|k: int| 0 <= k < i ==> m[k].0 != m[i].0,
    ensures
        member_get(m.update(i, (m[i].0, v)), m[i].0) == Some(v),
        forall|k: Seq<char>| k != m[i].0 ==> member_get(m.update(i, (m[i].0, v)), k) == member_get(m, k),
    decreases m.len(),
{
    let u = m.update(i, (m[i].0, v));
    if i > 0 {
        assert forall|k: int| 0 <= k < i - 1 implies (#[trigger] m.drop_first()[k]).0 != m.drop_first()[i - 1].0 by {
            assert(m.drop_first()[k] == m[k + 1]);
        }
        lemma_member_get_update(m.drop_first(), i - 1, v);
        assert(u.drop_first() =~= m.drop_first().update(i - 1, (m[i].0, v)));
        assert(u[0] == m[0]);
        assert(m.drop_first()[i - 1] == m[i]);
        assert forall|k: Seq<char>| k != m[i].0 implies member_get(u, k) == member_get(m, k) by {
            if m[0].0 != k {
                assert(member_get(u, k) == member_get(u.drop_first(), k));
                assert(member_get(m, k) == member_get(m.drop_first(), k));
            }
        }
    } else {
        assert(u.drop_first() =~= m.drop_first());
        assert forall|k: Seq<char>| k != m[i].0 implies member_get(u, k) == member_get(m, k) by {
            assert(member_get(u, k) == member_get(u.drop_first(), k));
        }
    }
}

pub proof fn lemma_member_get_push(m: Seq<(Seq<char>, JsonV)>, key: Seq<char>, v: JsonV)
    requires
        forall|k: int| 0 <= k < m.len() ==> m[k].0 != key,
    ensures
        member_get(m.push((key, v)), key) == Some(v),
        forall|k: Seq<char>| k != key ==> member_get(m.push((key, v)), k) == member_get(m, k),
    decreases m.len(),
{
    let p = m.push((key, v));
    if m.len() > 0 {
        assert forall|k: int| 0 <= k < m.drop_first().len() implies (#[trigger] m.drop_first()[k]).0 != key by {
            assert(m.drop_first()[k] == m[k + 1]);
        }
        lemma_member_get_push(m.drop_first(), key, v);
        assert(p.drop_first() =~= m.drop_first().push((key, v)));
        assert(p[0] == m[0]);
        assert forall|k: Seq<char>| k != key implies member_get(p, k) == member_get(m, k) by {
            if m[0].0 != k {
                assert(member_get(p, k) == member_get(p.drop_first(), k));
                assert(member_get(m, k) == member_get(m.drop_first(), k));
            }
        }
    } else {
        assert(p.drop_first() =~= m);
        assert forall|k: Seq<char>| k != key implies member_get(p, k) == member_get(m, k) by {
            assert(member_get(p, k) == member_get(p.drop_first(), k));
        }
    }
}

/// Message role.
#[derive(Debug, Clone, Copy, PartialEq, Eq, Structural)]
pub enum Role {
    /// System / developer instructions.
    System,
    /// The user.
    User,
    /// The model (`model` in Gemini, `assistant` elsewhere).
    Assistant,
    /// A tool result.
    Tool,
}

/// Where media comes from.
#[derive(Debug, Clone, PartialEq)]
pub enum MediaSource {
    /// A remote URL.
    Url(String),
    /// Inline base64 data, without a data URI prefix.
    Base64(String),
    /// An upstream file id.
    FileId(String),
    /// Plain text (not base64).
    Text(String),
}

/// Model of [`MediaSource`].
pub enum SourceV {
    Url(Seq<char>),
    Base64(Seq<char>),
    FileId(Seq<char>),
    Text(Seq<char>),
}

impl View for MediaSource {
    type V = SourceV;

    open spec fn view(&self) -> SourceV {
        match self {
            MediaSource::Url(s) => SourceV::Url(s@),
            MediaSource::Base64(s) => SourceV::Base64(s@),
            MediaSource::FileId(s) => SourceV::FileId(s@),
            MediaSource::Text(s) => SourceV::Text(s@),
        }
    }
}

/// The standard (padded) base64 encoding of the UTF-8 bytes of `text`.
pub uninterp spec fn base64_of_text(text: Seq<char>) -> Seq<char>;

/// The MIME type of a data URI's metadata: the text before the first `;`, absent when empty.
pub open spec fn meta_mime(meta: Seq<char>) -> Option<Seq<char>> {
    let head = match index_of(meta, ';') {
        Some(i) => meta.subrange(0, i),
        None => meta,
    };
    if head.len() == 0 {
        None
    } else {
        Some(head)
    }
}

/// What [`MediaSource::parse_data_uri`] makes of `raw`.
pub open spec fn spec_parse_data_uri(raw: Seq<char>) -> (SourceV, Option<Seq<char>>) {
    let prefix = "data:"@;
    if raw.len() >= prefix.len() && raw.subrange(0, prefix.len() as int) == prefix {
        let rest = raw.subrange(prefix.len() as int, raw.len() as int);
        match index_of(rest, ',') {
            Some(i) => {
                let meta = rest.subrange(0, i);
                let payload = rest.subrange(i + 1, rest.len() as int);
                if contains_seq(meta, "base64"@) {
                    (SourceV::Base64(payload), meta_mime(meta))
                } else {
                    (SourceV::Url(raw), None)
                }
            },
            None => (SourceV::Url(raw), None),
        }
    } else {
        (SourceV::Url(raw), None)
    }
}

/// What [`MediaSource::to_data_uri`] renders.
pub open spec fn spec_to_data_uri(src: SourceV, mime: Option<Seq<char>>) -> Seq<char> {
    match src {
        SourceV::Url(u) => u,
        SourceV::FileId(id) => id,
        SourceV::Base64(data) => "data:"@ + (match mime {
            Some(m) => m,
            None => "application/octet-stream"@,
        }) + ";base64,"@ + data,
        SourceV::Text(t) => "data:"@ + (match mime {
            Some(m) => m,
            None => "text/plain"@,
        }) + ";base64,"@ + base64_of_text(t),
    }
}

/// Calls base64's standard engine on the UTF-8 bytes of `text`.
#[verifier::external_body]
pub(crate) fn base64_encode_text(text: &str) -> (res: String)
    ensures
        res@ == base64_of_text(text@),
{
    base64::Engine::encode(&base64::engine::general_purpose::STANDARD, text)
}

impl MediaSource {
    pub fn duplicate(&self) -> (res: MediaSource)
        ensures
            res@ == self@,
    {
        match self {
            MediaSource::Url(s) => MediaSource::Url(owned(s.as_str())),
            MediaSource::Base64(s) => MediaSource::Base64(owned(s.as_str())),
            MediaSource::FileId(s) => MediaSource::FileId(owned(s.as_str())),
            MediaSource::Text(s) => MediaSource::Text(owned(s.as_str())),
        }
    }

    /// Parses a string that may be a data URI.
    ///
    /// `data:image/png;base64,iVBOR...` gives `(Base64("iVBOR..."), Some("image/png"))`;
    /// anything else is a URL.
    pub fn parse_data_uri(raw: &str) -> (res: (MediaSource, Option<String>))
        ensures
            (res.0@, ov(res.1)) == spec_parse_data_uri(raw@),
    {
        if let Some(rest) = strip_prefix(raw, "data:") {
            if let Some((meta, payload)) = split_once(rest, ',') {
                if contains(meta, "base64") {
                    let mime = match split_once(meta, ';') {
                        Some((head, _)) => head,
                        None => meta,
                    };
                    let mime = if mime.unicode_len() == 0 {
                        None
                    } else {
                        Some(owned(mime))
                    };
                    return (MediaSource::Base64(owned(payload)), mime);
                }
            }
        }
        (MediaSource::Url(owned(raw)), None)
    }

    /// Renders a data URI (for base64 and text sources) or the URL / id itself.
    pub fn to_data_uri(&self, mime: Option<&str>) -> (res: String)
        ensures
            res@ == spec_to_data_uri(self@, match mime {
                Some(m) => Some(m@),
                None => None,
            }),
    {
        match self {
            MediaSource::Url(u) => owned(u.as_str()),
            MediaSource::FileId(id) => owned(id.as_str()),
            MediaSource::Base64(data) => {
                let m = match mime {
                    Some(m) => m,
                    None => "application/octet-stream",
                };
                let out = concat(concat(concat("data:", m).as_str(), ";base64,").as_str(), data.as_str());
                out
            },
            MediaSource::Text(text) => {
                let m = match mime {
                    Some(m) => m,
                    None => "text/plain",
                };
                let data = base64_encode_text(text.as_str());
                concat(concat(concat("data:", m).as_str(), ";base64,").as_str(), data.as_str())
            },
        }
    }
}

/// A base64 source rendered with a plain MIME type parses back to the same
/// source and MIME type.
pub proof fn law_base64_data_uri_round_trip(data: Seq<char>, mime: Seq<char>)
    requires
        mime.len() > 0,
        index_of(mime, ',') is None,
        index_of(mime, ';') is None,
    ensures
        spec_parse_data_uri(spec_to_data_uri(SourceV::Base64(data), Some(mime)))
            == (SourceV::Base64(data), Some(mime)),
{
    reveal_strlit("data:");
    reveal_strlit(";base64,");
    reveal_strlit("base64");
    reveal_strlit(";base64");
    let raw = spec_to_data_uri(SourceV::Base64(data), Some(mime));
    let rest = raw.subrange(5, raw.len() as int);
    assert(raw.subrange(0, 5) =~= "data:"@);
    assert(rest =~= mime + ";base64,"@ + data);
    let meta = mime + ";base64"@;
    lemma_index_of_after(mime, ";base64,"@ + data, ',');
    assert(mime + ";base64,"@ + data =~= mime + (";base64,"@ + data));
    crate::text::lemma_index_of(";base64,"@ + data, ',');
    assert((";base64,"@ + data)[7] == ',');
    assert(index_of(";base64,"@ + data, ',') == Some(7int));
    assert(index_of(rest, ',') == Some(mime.len() as int + 7));
    assert(";base64,"@.subrange(0, 7) =~= ";base64"@);
    assert(rest.subrange(0, mime.len() as int + 7) =~= meta);
    assert(rest.subrange(mime.len() as int + 8, rest.len() as int) =~= data);
    assert(meta.subrange(mime.len() as int + 1, mime.len() as int + 7) =~= "base64"@);
    assert(meta.subrange(mime.len() as int + 1, mime.len() as int + 1 + "base64"@.len()) == "base64"@);
    assert(contains_seq(meta, "base64"@));
    lemma_index_of_after(mime, ";base64"@, ';');
    crate::text::lemma_index_of(";base64"@, ';');
    assert((";base64"@)[0] == ';');
    assert(index_of(meta, ';') == Some(mime.len() as int));
    assert(meta.subrange(0, mime.len() as int) =~= mime);
}

/// A data URI `data:{meta},{payload}`, with no comma in `meta`, is a base64 source of
/// `payload` when `meta` names base64, with the part of `meta` before its first `;` (when not
/// empty) as MIME type; otherwise the whole text stays a URL.
pub proof fn law_data_uri_form(meta: Seq<char>, payload: Seq<char>)
    requires
        index_of(meta, ',') is None,
    ensures
        spec_parse_data_uri("data:"@ + meta + ","@ + payload) == (if contains_seq(meta, "base64"@) {
            (SourceV::Base64(payload), meta_mime(meta))
        } else {
            (SourceV::Url("data:"@ + meta + ","@ + payload), None)
        }),
{
    reveal_strlit("data:");
    reveal_strlit(",");
    let raw = "data:"@ + meta + ","@ + payload;
    let rest = raw.subrange(5, raw.len() as int);
    assert(raw.subrange(0, 5) =~= "data:"@);
    assert(rest =~= meta + (","@ + payload));
    lemma_index_of_after(meta, ","@ + payload, ',');
    crate::text::lemma_index_of(","@ + payload, ',');
    assert((","@ + payload)[0] == ',');
    assert(index_of(rest, ',') == Some(meta.len() as int));
    assert(rest.subrange(0, meta.len() as int) =~= meta);
    assert(rest.subrange(meta.len() as int + 1, rest.len() as int) =~= payload);
}

/// `raw` is `data:{meta},{payload}` with no comma in `meta` and `meta` naming base64.
pub open spec fn base64_data_uri(raw: Seq<char>, meta: Seq<char>, payload: Seq<char>) -> bool {
    &&& raw == "data:"@ + meta + ","@ + payload
    &&& index_of(meta, ',') is None
    &&& contains_seq(meta, "base64"@)
}

/// Text that is no base64 data URI stays a URL with no MIME type; a base64 data URI gives
/// its payload and MIME type (see [`law_data_uri_form`]).
pub proof fn law_data_uri_otherwise(raw: Seq<char>)
    ensures
        !(exists|meta: Seq<char>, payload: Seq<char>| #[trigger] base64_data_uri(raw, meta, payload))
            ==> spec_parse_data_uri(raw) == (SourceV::Url(raw), None::<Seq<char>>),
        forall|meta: Seq<char>, payload: Seq<char>| #[trigger] base64_data_uri(raw, meta, payload)
            ==> spec_parse_data_uri(raw) == (SourceV::Base64(payload), meta_mime(meta)),
{
    reveal_strlit("data:");
    reveal_strlit(",");
    let prefix = "data:"@;
    if raw.len() >= prefix.len() && raw.subrange(0, prefix.len() as int) == prefix {
        let rest = raw.subrange(prefix.len() as int, raw.len() as int);
        crate::text::lemma_index_of(rest, ',');
        match index_of(rest, ',') {
            Some(i) => {
                let meta = rest.subrange(0, i);
                let payload = rest.subrange(i + 1, rest.len() as int);
                if contains_seq(meta, "base64"@) {
                    assert(raw =~= "data:"@ + meta + ","@ + payload);
                    crate::text::lemma_index_of(meta, ',');
                    if index_of(meta, ',') is Some {
                        let j = index_of(meta, ',')->0;
                        assert(rest[j] == meta[j]);
                    }
                    assert(base64_data_uri(raw, meta, payload));
                }
            },
            None => {},
        }
    }
    assert forall|meta: Seq<char>, payload: Seq<char>| #[trigger] base64_data_uri(raw, meta, payload)
        implies spec_parse_data_uri(raw) == (SourceV::Base64(payload), meta_mime(meta)) by {
        law_data_uri_form(meta, payload);
    }
}

/// Where `c` is first found in `a + b` when `a` lacks it.
pub proof fn lemma_index_of_after(a: Seq<char>, b: Seq<char>, c: char)
    requires
        index_of(a, c) is None,
    ensures
        index_of(a + b, c) == (match index_of(b, c) {
            Some(i) => Some(i + a.len()),
            None => None,
        }),
    decreases a.len(),
{
    if a.len() == 0 {
        assert(a + b =~= b);
    } else {
        assert(a[0] != c);
        assert((a + b)[0] == a[0]);
        assert((a + b).drop_first() =~= a.drop_first() + b);
        lemma_index_of_after(a.drop_first(), b, c);
    }
}

/// A piece of content.
#[derive(Debug, PartialEq)]
pub enum ContentPart {
    /// Plain text.
    Text { text: String },
    /// An image.
    Image { source: MediaSource, mime: Option<String>, detail: Option<String> },
    /// Audio.
    Audio { source: MediaSource, format: Option<String> },
    /// A file or document.
    File { source: MediaSource, mime: Option<String>, name: Option<String> },
    /// The model's reasoning; `signature` must survive every round trip.
    Thinking { text: String, signature: Option<String> },
    /// Encrypted reasoning that can only be sent back as it is.
    RedactedThinking { data: String },
    /// The model asks for a tool call.
    ToolUse { id: String, name: String, input: Json, signature: Option<String> },
    /// The result of a tool call.
    ToolResult { id: String, name: Option<String>, content: Vec<ContentPart>, is_error: bool },
    /// A refusal.
    Refusal { text: String },
    /// A protocol-specific block, restored only when passing through the same protocol.
    Opaque { protocol: String, value: Json },
}

/// Model of [`ContentPart`].
pub enum PartV {
    Text { text: Seq<char> },
    Image { source: SourceV, mime: Option<Seq<char>>, detail: Option<Seq<char>> },
    Audio { source: SourceV, format: Option<Seq<char>> },
    File { source: SourceV, mime: Option<Seq<char>>, name: Option<Seq<char>> },
    Thinking { text: Seq<char>, signature: Option<Seq<char>> },
    RedactedThinking { data: Seq<char> },
    ToolUse { id: Seq<char>, name: Seq<char>, input: JsonV, signature: Option<Seq<char>> },
    ToolResult { id: Seq<char>, name: Option<Seq<char>>, content: Seq<PartV>, is_error: bool },
    Refusal { text: Seq<char> },
    Opaque { protocol: Seq<char>, value: JsonV },
}

/// Model of one content part.
pub open spec fn part_view(p: ContentPart) -> PartV
    decreases p,
{
    match p {
        ContentPart::Text { text } => PartV::Text { text: text@ },
        ContentPart::Image { source, mime, detail } => PartV::Image { source: source@, mime: ov(mime), detail: ov(detail) },
        ContentPart::Audio { source, format } => PartV::Audio { source: source@, format: ov(format) },
        ContentPart::File { source, mime, name } => PartV::File { source: source@, mime: ov(mime), name: ov(name) },
        ContentPart::Thinking { text, signature } => PartV::Thinking { text: text@, signature: ov(signature) },
        ContentPart::RedactedThinking { data } => PartV::RedactedThinking { data: data@ },
        ContentPart::ToolUse { id, name, input, signature } => PartV::ToolUse { id: id@, name: name@, input: input@, signature: ov(signature) },
        ContentPart::ToolResult { id, name, content, is_error } => PartV::ToolResult { id: id@, name: ov(name), content: parts_view(content@), is_error },
        ContentPart::Refusal { text } => PartV::Refusal { text: text@ },
        ContentPart::Opaque { protocol, value } => PartV::Opaque { protocol: protocol@, value: value@ },
    }
}

/// Model of a run of content parts.
pub open spec fn parts_view(s: Seq<ContentPart>) -> Seq<PartV>
    decreases s,
{
    if s.len() == 0 {
        Seq::empty()
    } else {
        parts_view(s.drop_last()).push(part_view(s.last()))
    }
}

impl View for ContentPart {
    type V = PartV;

    open spec fn view(&self) -> PartV {
        part_view(*self)
    }
}

pub proof fn lemma_parts_view(s: Seq<ContentPart>)
    ensures
        parts_view(s).len() == s.len(),
        forall|i: int| 0 <= i < s.len() ==> #[trigger] parts_view(s)[i] == part_view(s[i]),
    decreases s.len(),
{
    if s.len() > 0 {
        lemma_parts_view(s.drop_last());
        assert forall|i: int| 0 <= i < s.len() implies #[trigger] parts_view(s)[i] == part_view(s[i]) by {
            if i < s.len() - 1 {
                assert(s.drop_last()[i] == s[i]);
            }
        }
    }
}

pub proof fn lemma_parts_view_push(s: Seq<ContentPart>, p: ContentPart)
    ensures
        parts_view(s.push(p)) == parts_view(s).push(part_view(p)),
{
    assert(s.push(p).drop_last() =~= s);
}

/// The model of two runs of parts laid end to end.
pub proof fn lemma_parts_view_append(a: Seq<ContentPart>, b: Seq<ContentPart>)
    ensures
        parts_view(a + b) == parts_view(a) + parts_view(b),
{
    lemma_parts_view(a);
    lemma_parts_view(b);
    lemma_parts_view(a + b);
    assert(parts_view(a + b) =~= parts_view(a) + parts_view(b));
}

/// Model of the parts of a vector.
pub open spec fn pv(v: Vec<ContentPart>) -> Seq<PartV> {
    parts_view(v@)
}

/// Copies every part of `parts`.
pub fn duplicate_parts(parts: &Vec<ContentPart>) -> (res: Vec<ContentPart>)
    ensures
        pv(res) == pv(*parts),
{
    let mut out: Vec<ContentPart> = Vec::new();
    let mut i: usize = 0;
    proof {
        lemma_parts_view(out@);
    }
    while i < parts.len()
        invariant
            i <= parts.len(),
            parts_view(out@) == parts_view(parts@.subrange(0, i as int)),
        decreases parts.len() - i,
    {
        let c = parts[i].duplicate();
        proof {
            lemma_parts_view_push(out@, c);
            assert(parts@.subrange(0, i + 1).drop_last() =~= parts@.subrange(0, i as int));
        }
        out.push(c);
        i = i + 1;
    }
    assert(parts@.subrange(0, parts.len() as int) =~= parts@);
    out
}

impl ContentPart {
    /// A text part.
    pub fn text(s: &str) -> (res: ContentPart)
        ensures
            res@ == (PartV::Text { text: s@ }),
    {
        ContentPart::Text { text: owned(s) }
    }

    /// The text of a text part.
    pub fn as_text(&self) -> (res: Option<&str>)
        ensures
            match res {
                Some(t) => self@ == (PartV::Text { text: t@ }),
                None => !(self@ is Text),
            },
    {
        match self {
            ContentPart::Text { text } => Some(text.as_str()),
            _ => None,
        }
    }

    /// A deep copy.
    pub fn duplicate(&self) -> (res: ContentPart)
        ensures
            res@ == self@,
        decreases self,
    {
        match self {
            ContentPart::Text { text } => ContentPart::Text { text: owned(text.as_str()) },
            ContentPart::Image { source, mime, detail } => ContentPart::Image { source: source.duplicate(), mime: dup_opt(mime), detail: dup_opt(detail) },
            ContentPart::Audio { source, format } => ContentPart::Audio { source: source.duplicate(), format: dup_opt(format) },
            ContentPart::File { source, mime, name } => ContentPart::File { source: source.duplicate(), mime: dup_opt(mime), name: dup_opt(name) },
            ContentPart::Thinking { text, signature } => ContentPart::Thinking { text: owned(text.as_str()), signature: dup_opt(signature) },
            ContentPart::RedactedThinking { data } => ContentPart::RedactedThinking { data: owned(data.as_str()) },
            ContentPart::ToolUse { id, name, input, signature } => ContentPart::ToolUse { id: owned(id.as_str()), name: owned(name.as_str()), input: input.duplicate(), signature: dup_opt(signature) },
            ContentPart::ToolResult { id, name, content, is_error } => {
                let mut out: Vec<ContentPart> = Vec::new();
                let mut i: usize = 0;
                proof {
                    lemma_parts_view(out@);
                }
                while i < content.len()
                    invariant
                        i <= content.len(),
                        parts_view(out@) == parts_view(content@.subrange(0, i as int)),
                        *self == (ContentPart::ToolResult { id: *id, name: *name, content: *content, is_error: *is_error }),
                    decreases content.len() - i,
                {
                    proof {
                        assert(decreases_to!(*self => (*self)->ToolResult_content));
                        vstd::std_specs::vec::axiom_vec_index_decreases(*content, i as int);
                    }
                    let c = content[i].duplicate();
                    proof {
                        lemma_parts_view_push(out@, c);
                        assert(content@.subrange(0, i + 1).drop_last() =~= content@.subrange(0, i as int));
                    }
                    out.push(c);
                    i = i + 1;
                }
                assert(content@.subrange(0, content.len() as int) =~= content@);
                ContentPart::ToolResult { id: owned(id.as_str()), name: dup_opt(name), content: out, is_error: *is_error }
            },
            ContentPart::Refusal { text } => ContentPart::Refusal { text: owned(text.as_str()) },
            ContentPart::Opaque { protocol, value } => ContentPart::Opaque { protocol: owned(protocol.as_str()), value: value.duplicate() },
        }
    }
}

impl Clone for ContentPart {
    fn clone(&self) -> (res: ContentPart) {
        self.duplicate()
    }
}

/// Concatenation of the text parts of `parts`.
pub open spec fn text_of(parts: Seq<PartV>) -> Seq<char>
    decreases parts.len(),
{
    if parts.len() == 0 {
        Seq::empty()
    } else {
        text_of(parts.drop_last()) + match parts.last() {
            PartV::Text { text } => text,
            _ => Seq::empty(),
        }
    }
}

/// Whether every part is a text part.
pub open spec fn all_text(parts: Seq<PartV>) -> bool {
    forall|i: int| 0 <= i < parts.len() ==> #[trigger] parts[i] is Text
}

/// Concatenates the text parts of `parts`, in order.
pub fn concat_texts(parts: &Vec<ContentPart>) -> (res: String)
    ensures
        res@ == text_of(pv(*parts)),
{
    proof {
        lemma_parts_view(parts@);
    }
    let mut out = String::new();
    let mut i: usize = 0;
    while i < parts.len()
        invariant
            i <= parts.len(),
            pv(*parts).len() == parts.len(),
            forall|k: int| 0 <= k < parts.len() ==> #[trigger] pv(*parts)[k] == part_view(parts@[k]),
            out@ == text_of(pv(*parts).subrange(0, i as int)),
        decreases parts.len() - i,
    {
        assert(pv(*parts).subrange(0, i + 1).drop_last() =~= pv(*parts).subrange(0, i as int));
        if let ContentPart::Text { text } = &parts[i] {
            out.append(text.as_str());
        }
        i = i + 1;
    }
    assert(pv(*parts).subrange(0, parts.len() as int) =~= pv(*parts));
    out
}

/// One message.
#[derive(Debug, Clone, PartialEq)]
pub struct Message {
    /// Role.
    pub role: Role,
    /// Content parts.
    pub content: Vec<ContentPart>,
    /// Speaker name (OpenAI `name`).
    pub name: Option<String>,
}

impl Message {
    /// A message with the given role and content.
    pub fn new(role: Role, content: Vec<ContentPart>) -> (res: Message)
        ensures
            res.role == role,
            res.content == content,
            res.name.is_none(),
    {
        Message { role, content, name: None }
    }

    /// A message holding one text part.
    pub fn text(role: Role, text: &str) -> (res: Message)
        ensures
            res.role == role,
            pv(res.content) == seq![PartV::Text { text: text@ }],
            res.name.is_none(),
    {
        let mut content: Vec<ContentPart> = Vec::new();
        let p = ContentPart::text(text);
        content.push(p);
        proof {
            lemma_parts_view(content@);
            assert(pv(content) =~= seq![PartV::Text { text: text@ }]);
        }
        Message::new(role, content)
    }

    /// All text parts, concatenated.
    pub fn text_content(&self) -> (res: String)
        ensures
            res@ == text_of(pv(self.content)),
    {
        concat_texts(&self.content)
    }

    /// Whether the message is non-empty and holds only text.
    pub fn is_plain_text(&self) -> (res: bool)
        ensures
            res == (self.content.len() > 0 && all_text(pv(self.content))),
    {
        proof {
            lemma_parts_view(self.content@);
        }
        if self.content.len() == 0 {
            return false;
        }
        let mut i: usize = 0;
        while i < self.content.len()
            invariant
                i <= self.content.len(),
                pv(self.content).len() == self.content.len(),
                forall|k: int| 0 <= k < self.content.len() ==> #[trigger] pv(self.content)[k] == part_view(self.content@[k]),
                forall|k: int| 0 <= k < i ==> #[trigger] pv(self.content)[k] is Text,
            decreases self.content.len() - i,
        {
            match &self.content[i] {
                ContentPart::Text { .. } => {},
                _ => {
                    assert(!(pv(self.content)[i as int] is Text));
                    return false;
                },
            }
            i = i + 1;
        }
        true
    }
}

/// A tool (function) declaration.
#[derive(Debug, Clone, PartialEq)]
pub struct ToolDef {
    /// Tool name.
    pub name: String,
    /// Description.
    pub description: Option<String>,
    /// JSON Schema of the input.
    pub parameters: Json,
    /// OpenAI strict mode.
    pub strict: Option<bool>,
}

/// Tool choice policy.
#[derive(Debug, Clone, PartialEq)]
pub enum ToolChoice {
    /// Not given; the upstream default applies.
    Unspecified,
    /// The model decides.
    Auto,
    /// Some tool must be called.
    Required,
    /// No tool may be called (`none` on the wire).
    NoTool,
    /// This tool must be called.
    Tool(String),
}

/// Sampling parameters. Fractional values are kept as JSON numbers.
#[derive(Debug, Clone, PartialEq)]
pub struct Sampling {
    /// Temperature.
    pub temperature: Option<JsonNumber>,
    /// Nucleus sampling.
    pub top_p: Option<JsonNumber>,
    /// Top-K (Anthropic and Gemini only).
    pub top_k: Option<u32>,
    /// Frequency penalty (OpenAI only).
    pub frequency_penalty: Option<JsonNumber>,
    /// Presence penalty (OpenAI only).
    pub presence_penalty: Option<JsonNumber>,
    /// Stop sequences.
    pub stop: Vec<String>,
    /// Random seed (OpenAI Chat only).
    pub seed: Option<i64>,
    /// Number of candidates.
    pub candidate_count: Option<u32>,
}

impl Sampling {
    /// No sampling parameter set.
    pub fn new() -> (res: Sampling)
        ensures
            res.temperature.is_none(),
            res.top_p.is_none(),
            res.top_k.is_none(),
            res.frequency_penalty.is_none(),
            res.presence_penalty.is_none(),
            res.stop@.len() == 0,
            res.seed.is_none(),
            res.candidate_count.is_none(),
            res@ == Sampling::empty_spec(),
    {
        let v: Vec<String> = Vec::new();
        assert(v@.map_values(|s: String| s@) =~= Seq::<Seq<char>>::empty());
        Sampling {
            temperature: None,
            top_p: None,
            top_k: None,
            frequency_penalty: None,
            presence_penalty: None,
            stop: v,
            seed: None,
            candidate_count: None,
        }
    }
}

/// Reasoning configuration.
#[derive(Debug, Clone, PartialEq)]
pub struct ReasoningConfig {
    /// Qualitative tier (`minimal`/`low`/`medium`/`high`).
    pub effort: Option<String>,
    /// Quantitative budget (Anthropic `budget_tokens` / Gemini `thinkingBudget`).
    pub budget_tokens: Option<u32>,
    /// Whether reasoning is included in the output.
    pub include_thoughts: Option<bool>,
}

/// `max_output`, or 32000 when absent.
pub open spec fn ceiling_of(max_output: Option<u32>) -> int {
    match max_output {
        Some(m) => m as int,
        None => 32_000,
    }
}

/// A budget raised to Anthropic's minimum of 1024 and kept below the ceiling.
pub open spec fn clamp_budget(b: int, ceiling: int) -> int {
    let lifted = if b < 1024 { 1024 } else { b };
    if lifted < ceiling - 1 { lifted } else { ceiling - 1 }
}

/// The token budget that an effort tier stands for under `ceiling`, if any.
pub open spec fn effort_budget(effort: Seq<char>, ceiling: int) -> Option<int> {
    if ceiling <= 1024 {
        None
    } else if effort == "low"@ {
        Some(clamp_budget(ceiling / 5, ceiling))
    } else if effort == "medium"@ {
        Some(clamp_budget(ceiling / 2, ceiling))
    } else if effort == "high"@ {
        Some(clamp_budget(ceiling * 4 / 5, ceiling))
    } else {
        None
    }
}

/// The share of `ceiling` that an effort tier asks for, before any clamping.
pub open spec fn raw_effort_budget(effort: Seq<char>, ceiling: int) -> int {
    if effort == "low"@ {
        ceiling / 5
    } else if effort == "medium"@ {
        ceiling / 2
    } else {
        ceiling * 4 / 5
    }
}

/// An effort tier turned into a budget and read back as a tier under the same ceiling
/// gives the tier back, whenever the budget needed no clamping.
pub proof fn law_effort_budget_round_trip(effort: Seq<char>, max_output: Option<u32>)
    requires
        effort == "low"@ || effort == "medium"@ || effort == "high"@,
        effort_budget(effort, ceiling_of(max_output)) == Some(raw_effort_budget(effort, ceiling_of(max_output))),
    ensures
        0 <= raw_effort_budget(effort, ceiling_of(max_output)) <= u32::MAX,
        budget_tier(raw_effort_budget(effort, ceiling_of(max_output)) as u32, max_output) == effort,
{
    reveal_strlit("low");
    reveal_strlit("medium");
    reveal_strlit("high");
    let c = ceiling_of(max_output);
    assert(1024 < c <= u32::MAX);
    let b = raw_effort_budget(effort, c);
    if effort == "low"@ {
        assert(20 * (c / 5) <= 4 * c) by (nonlinear_arith) requires c > 0;
        assert(0 <= b <= c);
    } else if effort == "medium"@ {
        assert(20 * (c / 2) >= 10 * c - 10 && 20 * (c / 2) <= 10 * c) by (nonlinear_arith) requires c > 0;
        assert(0 <= b <= c);
    } else {
        assert(20 * (c * 4 / 5) >= 16 * c - 16 && 20 * (c * 4 / 5) <= 16 * c) by (nonlinear_arith) requires c > 0;
        assert(0 <= b <= c);
    }
}

/// The effort tier that a budget stands for under `max_output`.
pub open spec fn budget_tier(budget: u32, max_output: Option<u32>) -> Seq<char> {
    let c = if ceiling_of(max_output) < 1 { 1 } else { ceiling_of(max_output) };
    if 20 * budget >= 13 * c {
        "high"@
    } else if 20 * budget >= 7 * c {
        "medium"@
    } else {
        "low"@
    }
}

/// The canonical tier of an effort name.
pub open spec fn canonical_effort(e: Seq<char>) -> Seq<char> {
    if e == "minimal"@ || e == "none"@ {
        "minimal"@
    } else if e == "low"@ {
        "low"@
    } else if e == "high"@ {
        "high"@
    } else {
        "medium"@
    }
}

impl ReasoningConfig {
    /// The thinking budget: the explicit one, else the one the effort tier stands for.
    ///
    /// An effort-derived budget always satisfies `1024 <= budget < max_output`
    /// (Anthropic's rule); when no such value exists thinking is dropped.
    pub fn budget_or_from_effort(&self, max_output: Option<u32>) -> (res: Option<u32>)
        ensures
            self.budget_tokens is Some ==> res == self.budget_tokens,
            self.budget_tokens is None ==> match ov(self.effort) {
                None => res is None,
                Some(e) => match effort_budget(e, ceiling_of(max_output)) {
                    Some(b) => res == Some(b as u32),
                    None => res is None,
                },
            },
            self.budget_tokens is None && res is Some ==> 1024 <= res.unwrap() < ceiling_of(max_output),
    {
        if let Some(b) = self.budget_tokens {
            return Some(b);
        }
        let effort = match &self.effort {
            Some(e) => e.as_str(),
            None => return None,
        };
        let ceiling: u32 = match max_output {
            Some(m) => m,
            None => 32_000,
        };
        if ceiling <= 1_024 {
            return None;
        }
        let budget: u32 = if text_eq(effort, "low") {
            ceiling / 5
        } else if text_eq(effort, "medium") {
            ceiling / 2
        } else if text_eq(effort, "high") {
            let wide: u64 = (ceiling as u64) * 4 / 5;
            assert(wide <= ceiling);
            wide as u32
        } else {
            return None;
        };
        let lifted = if budget < 1_024 { 1_024 } else { budget };
        Some(if lifted < ceiling - 1 { lifted } else { ceiling - 1 })
    }

    /// The effort tier: the explicit one (canonicalised), else the tier the budget stands for.
    pub fn effort_or_from_budget(&self, max_output: Option<u32>) -> (res: Option<&'static str>)
        ensures
            match ov(self.effort) {
                Some(e) => res matches Some(r) && r@ == canonical_effort(e),
                None => match self.budget_tokens {
                    Some(b) => res matches Some(r) && r@ == budget_tier(b, max_output),
                    None => res is None,
                },
            },
    {
        if let Some(e) = &self.effort {
            let e = e.as_str();
            return Some(
                if text_eq(e, "minimal") || text_eq(e, "none") {
                    "minimal"
                } else if text_eq(e, "low") {
                    "low"
                } else if text_eq(e, "high") {
                    "high"
                } else {
                    "medium"
                },
            );
        }
        let budget = match self.budget_tokens {
            Some(b) => b,
            None => return None,
        };
        let m: u32 = match max_output {
            Some(m) => m,
            None => 32_000,
        };
        let ceiling: u64 = if m < 1 { 1 } else { m as u64 };
        let b = budget as u64;
        Some(if 20 * b >= 13 * ceiling {
            "high"
        } else if 20 * b >= 7 * ceiling {
            "medium"
        } else {
            "low"
        })
    }
}

/// Response format constraint.
#[derive(Debug, Clone, PartialEq)]
pub enum ResponseFormat {
    /// Free text.
    Text,
    /// Any valid JSON.
    JsonObject,
    /// JSON that matches the given schema.
    JsonSchema { name: String, schema: Json, strict: bool },
}

/// Unified request.
#[derive(Debug, Clone, PartialEq)]
pub struct UnifiedRequest {
    /// Model name.
    pub model: String,
    /// System instructions (top-level in Anthropic and Gemini).
    pub system: Vec<ContentPart>,
    /// Conversation.
    pub messages: Vec<Message>,
    /// Tool declarations.
    pub tools: Vec<ToolDef>,
    /// Tool choice.
    pub tool_choice: ToolChoice,
    /// Whether tools may be called in parallel.
    pub parallel_tool_calls: Option<bool>,
    /// Sampling parameters.
    pub sampling: Sampling,
    /// Maximum output tokens.
    pub max_output_tokens: Option<u32>,
    /// Streaming.
    pub stream: bool,
    /// Whether a streaming upstream must report usage.
    pub stream_include_usage: bool,
    /// Reasoning configuration.
    pub reasoning: Option<ReasoningConfig>,
    /// Response format constraint.
    pub response_format: Option<ResponseFormat>,
    /// End-user identifier.
    pub user: Option<String>,
    /// Protocol-specific fields.
    pub extensions: Extensions,
}

/// The system text: text parts joined by line breaks.
pub open spec fn system_join(parts: Seq<PartV>) -> Seq<char>
    decreases parts.len(),
{
    if parts.len() == 0 {
        Seq::empty()
    } else {
        let acc = system_join(parts.drop_last());
        match parts.last() {
            PartV::Text { text } => if acc.len() == 0 {
                text
            } else {
                acc + seq!['\n'] + text
            },
            _ => acc,
        }
    }
}

impl UnifiedRequest {
    /// A minimal request.
    pub fn new(model: &str, messages: Vec<Message>) -> (res: UnifiedRequest)
        ensures
            res.model@ == model@,
            res.system@.len() == 0,
            res.messages == messages,
            res.tools@.len() == 0,
            res.tool_choice == ToolChoice::Unspecified,
            res.parallel_tool_calls.is_none(),
            res.max_output_tokens.is_none(),
            !res.stream,
            !res.stream_include_usage,
            res.reasoning.is_none(),
            res.response_format.is_none(),
            res.user.is_none(),
            res.extensions@.len() == 0,
            forall|k: Seq<char>| res.extensions.lookup(k) is None,
            res.sampling@ == Sampling::empty_spec(),
    {
        UnifiedRequest {
            model: owned(model),
            system: Vec::new(),
            messages,
            tools: Vec::new(),
            tool_choice: ToolChoice::Unspecified,
            parallel_tool_calls: None,
            sampling: Sampling::new(),
            max_output_tokens: None,
            stream: false,
            stream_include_usage: false,
            reasoning: None,
            response_format: None,
            user: None,
            extensions: Extensions::new(),
        }
    }

    /// A protocol-specific field.
    pub fn extension(&self, key: &str) -> (res: Option<&Json>)
        ensures
            crate::json::opt_view(res) == self.extensions.lookup(key@),
    {
        self.extensions.get(key)
    }

    /// Stores a protocol-specific field.
    pub fn set_extension(&mut self, key: String, value: Json)
        ensures
            final(self).extensions@ == ext_insert(old(self).extensions@, key@, value@),
            final(self).extensions.lookup(key@) == Some(value@),
            forall|k: Seq<char>| k != key@ ==> final(self).extensions.lookup(k) == old(self).extensions.lookup(k),
    {
        self.extensions.insert(key, value);
    }

    /// The system instructions as plain text.
    pub fn system_text(&self) -> (res: String)
        ensures
            res@ == system_join(pv(self.system)),
    {
        proof {
            lemma_parts_view(self.system@);
            reveal_strlit("\n");
        }
        let mut out = String::new();
        let mut i: usize = 0;
        while i < self.system.len()
            invariant
                i <= self.system.len(),
                pv(self.system).len() == self.system.len(),
                forall|k: int| 0 <= k < self.system.len() ==> #[trigger] pv(self.system)[k] == part_view(self.system@[k]),
                out@ == system_join(pv(self.system).subrange(0, i as int)),
            decreases self.system.len() - i,
        {
            assert(pv(self.system).subrange(0, i + 1).drop_last() =~= pv(self.system).subrange(0, i as int));
            if let ContentPart::Text { text } = &self.system[i] {
                if out.as_str().unicode_len() != 0 {
                    proof {
                        reveal_strlit("\n");
                    }
                    out.append("\n");
                }
                out.append(text.as_str());
            }
            i = i + 1;
        }
        assert(pv(self.system).subrange(0, self.system.len() as int) =~= pv(self.system));
        out
    }
}

/// Why generation stopped.
#[derive(Debug, Clone, Copy, PartialEq, Eq, Structural)]
pub enum StopReason {
    /// Natural end.
    Stop,
    /// Token limit reached.
    MaxTokens,
    /// A stop sequence matched.
    StopSequence,
    /// The model wants a tool call.
    ToolUse,
    /// Content was filtered.
    ContentFilter,
    /// The model refused.
    Refusal,
    /// The upstream paused the turn (Anthropic `pause_turn`).
    PauseTurn,
    /// Anything else.
    Other,
}

/// Token usage.
#[derive(Debug, Clone, Copy, PartialEq, Eq, Structural)]
pub struct Usage {
    /// Input tokens.
    pub input_tokens: u64,
    /// Output tokens.
    pub output_tokens: u64,
    /// Input tokens served from cache.
    pub cached_input_tokens: u64,
    /// Tokens written to cache (Anthropic `cache_creation_input_tokens`).
    pub cache_write_tokens: u64,
    /// Reasoning tokens.
    pub reasoning_tokens: u64,
}

/// Whether every count of `u` is zero.
pub open spec fn usage_empty(u: Usage) -> bool {
    u.input_tokens == 0 && u.output_tokens == 0 && u.cached_input_tokens == 0 && u.cache_write_tokens == 0
        && u.reasoning_tokens == 0
}

pub open spec fn max_u64(a: u64, b: u64) -> u64 {
    if a >= b { a } else { b }
}

pub open spec fn sat_add(a: u64, b: u64) -> u64 {
    if a + b > u64::MAX { u64::MAX } else { (a + b) as u64 }
}

/// Field-wise maximum of two usage snapshots.
pub open spec fn usage_max(a: Usage, b: Usage) -> Usage {
    Usage {
        input_tokens: max_u64(a.input_tokens, b.input_tokens),
        output_tokens: max_u64(a.output_tokens, b.output_tokens),
        cached_input_tokens: max_u64(a.cached_input_tokens, b.cached_input_tokens),
        cache_write_tokens: max_u64(a.cache_write_tokens, b.cache_write_tokens),
        reasoning_tokens: max_u64(a.reasoning_tokens, b.reasoning_tokens),
    }
}

/// Field-wise saturating sum of two usage snapshots.
pub open spec fn usage_sum(a: Usage, b: Usage) -> Usage {
    Usage {
        input_tokens: sat_add(a.input_tokens, b.input_tokens),
        output_tokens: sat_add(a.output_tokens, b.output_tokens),
        cached_input_tokens: sat_add(a.cached_input_tokens, b.cached_input_tokens),
        cache_write_tokens: sat_add(a.cache_write_tokens, b.cache_write_tokens),
        reasoning_tokens: sat_add(a.reasoning_tokens, b.reasoning_tokens),
    }
}

/// `a + b` modulo 2^64.
pub open spec fn wrap_add(a: u64, b: u64) -> u64 {
    if a + b > u64::MAX { (a + b - 0x1_0000_0000_0000_0000) as u64 } else { (a + b) as u64 }
}

/// `a + b` modulo 2^64.
pub fn wrap_add_exec(a: u64, b: u64) -> (res: u64)
    ensures
        res == wrap_add(a, b),
{
    if a <= u64::MAX - b { a + b } else { a - (u64::MAX - b) - 1 }
}

fn max_of(a: u64, b: u64) -> (res: u64)
    ensures
        res == max_u64(a, b),
{
    if a >= b { a } else { b }
}

impl Default for Usage {
    fn default() -> (res: Usage)
        ensures
            res == Usage::zero_spec(),
    {
        Usage::zero()
    }
}

impl Usage {
    /// No tokens at all.
    pub fn zero() -> (res: Usage)
        ensures
            res == (Usage { input_tokens: 0, output_tokens: 0, cached_input_tokens: 0, cache_write_tokens: 0, reasoning_tokens: 0 }),
    {
        Usage { input_tokens: 0, output_tokens: 0, cached_input_tokens: 0, cache_write_tokens: 0, reasoning_tokens: 0 }
    }

    /// Total tokens: input plus output.
    pub fn total(&self) -> (res: u64)
        requires
            self.input_tokens + self.output_tokens <= u64::MAX,
        ensures
            res == self.input_tokens + self.output_tokens,
    {
        self.input_tokens + self.output_tokens
    }

    /// Whether the upstream reported no usage: every count is zero.
    pub fn is_empty(&self) -> (res: bool)
        ensures
            res == usage_empty(*self),
    {
        self.input_tokens == 0 && self.output_tokens == 0 && self.cached_input_tokens == 0
            && self.cache_write_tokens == 0 && self.reasoning_tokens == 0
    }

    /// Usage in billing terms: for Anthropic upstreams the input count also
    /// covers cache reads and cache writes (saturating); other protocols already do.
    pub fn billing_normalized(self, upstream: Protocol) -> (res: Usage)
        ensures
            upstream == Protocol::Messages ==> res == (Usage {
                input_tokens: sat_add(sat_add(self.input_tokens, self.cached_input_tokens), self.cache_write_tokens),
                ..self
            }),
            upstream != Protocol::Messages ==> res == self,
    {
        let mut out = self;
        if upstream == Protocol::Messages {
            out.input_tokens = self.input_tokens.saturating_add(self.cached_input_tokens).saturating_add(self.cache_write_tokens);
        }
        out
    }

    /// Merges another snapshot by taking each field's maximum.
    pub fn merge_max(&mut self, other: &Usage)
        ensures
            *final(self) == usage_max(*old(self), *other),
    {
        self.input_tokens = max_of(self.input_tokens, other.input_tokens);
        self.output_tokens = max_of(self.output_tokens, other.output_tokens);
        self.cached_input_tokens = max_of(self.cached_input_tokens, other.cached_input_tokens);
        self.cache_write_tokens = max_of(self.cache_write_tokens, other.cache_write_tokens);
        self.reasoning_tokens = max_of(self.reasoning_tokens, other.reasoning_tokens);
    }

    /// Adds another snapshot field by field (saturating).
    pub fn merge_sum(&mut self, other: &Usage)
        ensures
            *final(self) == usage_sum(*old(self), *other),
    {
        self.input_tokens = self.input_tokens.saturating_add(other.input_tokens);
        self.output_tokens = self.output_tokens.saturating_add(other.output_tokens);
        self.cached_input_tokens = self.cached_input_tokens.saturating_add(other.cached_input_tokens);
        self.cache_write_tokens = self.cache_write_tokens.saturating_add(other.cache_write_tokens);
        self.reasoning_tokens = self.reasoning_tokens.saturating_add(other.reasoning_tokens);
    }
}

/// Merging snapshots by maximum is commutative, idempotent and never loses a count.
pub proof fn law_usage_max_merge(a: Usage, b: Usage)
    ensures
        usage_max(a, b) == usage_max(b, a),
        usage_max(a, a) == a,
        usage_max(usage_max(a, b), b) == usage_max(a, b),
        usage_max(a, b).input_tokens >= a.input_tokens && usage_max(a, b).input_tokens >= b.input_tokens,
        usage_max(a, b).output_tokens >= a.output_tokens && usage_max(a, b).output_tokens >= b.output_tokens,
{
}

/// Summing snapshots is commutative and adding nothing changes nothing.
pub proof fn law_usage_sum_merge(a: Usage)
    ensures
        forall|b: Usage| #[trigger] usage_sum(a, b) == usage_sum(b, a),
        usage_sum(a, Usage { input_tokens: 0, output_tokens: 0, cached_input_tokens: 0, cache_write_tokens: 0, reasoning_tokens: 0 }) == a,
{
}

/// Unified response.
#[derive(Debug, Clone, PartialEq)]
pub struct UnifiedResponse {
    /// Response id.
    pub id: String,
    /// Model actually used.
    pub model: String,
    /// Creation time (Unix seconds).
    pub created: i64,
    /// Output content.
    pub content: Vec<ContentPart>,
    /// Why generation stopped.
    pub stop_reason: Option<StopReason>,
    /// The stop sequence that matched.
    pub stop_sequence: Option<String>,
    /// Token usage.
    pub usage: Usage,
    /// Protocol-specific fields.
    pub extensions: Extensions,
}

/// Reads the system clock through `chrono::Utc::now` (Unix seconds).
#[verifier::external_body]
pub(crate) fn now_unix_seconds() -> i64 {
    chrono::Utc::now().timestamp()
}

/// Whether `c` is a lowercase hexadecimal digit.
pub open spec fn is_lower_hex(c: char) -> bool {
    ('0' <= c && c <= '9') || ('a' <= c && c <= 'f')
}

/// The text form of a random (version 4) UUID: 36 characters, hyphens at 8, 13, 18 and 23,
/// lowercase hexadecimal digits elsewhere, the version digit `4` at 14 and a variant digit
/// `8`, `9`, `a` or `b` at 19.
pub open spec fn uuid_text(s: Seq<char>) -> bool {
    &&& s.len() == 36
    &&& forall|i: int| #![trigger s[i]] 0 <= i < 36 ==> if i == 8 || i == 13 || i == 18 || i == 23 {
        s[i] == '-'
    } else {
        is_lower_hex(s[i])
    }
    &&& s[14] == '4'
    &&& (s[19] == '8' || s[19] == '9' || s[19] == 'a' || s[19] == 'b')
}

/// A random UUID with its hyphens taken out.
pub open spec fn uuid_hex(u: Seq<char>) -> bool {
    exists|g: Seq<char>| #[trigger] uuid_text(g) && u == without_char(g, '-')
}

/// Draws a random version-4 UUID through `uuid::Uuid::new_v4` and formats it hyphenated
/// (its `Display`, lowercase): the version and variant bits are set, the other digits are random.
#[verifier::external_body]
pub(crate) fn random_uuid() -> (res: String)
    ensures
        uuid_text(res@),
{
    uuid::Uuid::new_v4().to_string()
}

/// A random UUID without its hyphens.
pub(crate) fn random_uuid_hex() -> (res: String)
    ensures
        uuid_hex(res@),
{
    let g = random_uuid();
    let u = remove_char(g.as_str(), '-');
    assert(uuid_text(g@) && u@ == without_char(g@, '-'));
    u
}

/// The tool calls among `parts`: id, name and input of each, in order.
pub open spec fn tool_uses_of(parts: Seq<PartV>) -> Seq<(Seq<char>, Seq<char>, JsonV)>
    decreases parts.len(),
{
    if parts.len() == 0 {
        Seq::empty()
    } else {
        let acc = tool_uses_of(parts.drop_last());
        match parts.last() {
            PartV::ToolUse { id, name, input, .. } => acc.push((id, name, input)),
            _ => acc,
        }
    }
}

impl UnifiedResponse {
    /// An empty response created now.
    pub fn new(id: &str, model: &str) -> (res: UnifiedResponse)
        ensures
            res.id@ == id@,
            res.model@ == model@,
            res.content@.len() == 0,
            res.stop_reason.is_none(),
            res.stop_sequence.is_none(),
            res.usage == Usage::zero_spec(),
            res.extensions@.len() == 0,
    {
        UnifiedResponse {
            id: owned(id),
            model: owned(model),
            created: now_unix_seconds(),
            content: Vec::new(),
            stop_reason: None,
            stop_sequence: None,
            usage: Usage::zero(),
            extensions: Extensions::new(),
        }
    }

    /// The text parts of the output, concatenated.
    pub fn text(&self) -> (res: String)
        ensures
            res@ == text_of(pv(self.content)),
    {
        concat_texts(&self.content)
    }

    /// The tool calls in the output: id, name and input of each, in order.
    pub fn tool_uses(&self) -> (res: Vec<(&str, &str, &Json)>)
        ensures
            res@.len() == tool_uses_of(pv(self.content)).len(),
            forall|k: int| 0 <= k < res@.len() ==> (#[trigger] res@[k]).0@ == tool_uses_of(pv(self.content))[k].0
                && res@[k].1@ == tool_uses_of(pv(self.content))[k].1
                && res@[k].2@ == tool_uses_of(pv(self.content))[k].2,
    {
        proof {
            lemma_parts_view(self.content@);
        }
        let mut out: Vec<(&str, &str, &Json)> = Vec::new();
        let mut i: usize = 0;
        while i < self.content.len()
            invariant
                i <= self.content.len(),
                pv(self.content).len() == self.content.len(),
                forall|k: int| 0 <= k < self.content.len() ==> #[trigger] pv(self.content)[k] == part_view(self.content@[k]),
                out@.len() == tool_uses_of(pv(self.content).subrange(0, i as int)).len(),
                forall|k: int| 0 <= k < out@.len() ==> (#[trigger] out@[k]).0@ == tool_uses_of(pv(self.content).subrange(0, i as int))[k].0
                    && out@[k].1@ == tool_uses_of(pv(self.content).subrange(0, i as int))[k].1
                    && out@[k].2@ == tool_uses_of(pv(self.content).subrange(0, i as int))[k].2,
            decreases self.content.len() - i,
        {
            assert(pv(self.content).subrange(0, i + 1).drop_last() =~= pv(self.content).subrange(0, i as int));
            if let ContentPart::ToolUse { id, name, input, .. } = &self.content[i] {
                out.push((id.as_str(), name.as_str(), input));
            }
            i = i + 1;
        }
        assert(pv(self.content).subrange(0, self.content.len() as int) =~= pv(self.content));
        out
    }
}

impl Usage {
    pub open spec fn zero_spec() -> Usage {
        Usage { input_tokens: 0, output_tokens: 0, cached_input_tokens: 0, cache_write_tokens: 0, reasoning_tokens: 0 }
    }
}

/// Optional number, viewed.
pub open spec fn onv(o: Option<JsonNumber>) -> Option<NumberV> {
    match o {
        Some(n) => Some(n@),
        None => None,
    }
}

/// Model of [`Message`].
pub struct MessageV {
    pub role: Role,
    pub content: Seq<PartV>,
    pub name: Option<Seq<char>>,
}

impl View for Message {
    type V = MessageV;

    open spec fn view(&self) -> MessageV {
        MessageV { role: self.role, content: pv(self.content), name: ov(self.name) }
    }
}

/// Model of a run of messages.
pub open spec fn msgs(v: Seq<Message>) -> Seq<MessageV> {
    v.map_values(|m: Message| m@)
}

/// Model of [`ToolDef`].
pub struct ToolV {
    pub name: Seq<char>,
    pub description: Option<Seq<char>>,
    pub parameters: JsonV,
    pub strict: Option<bool>,
}

impl View for ToolDef {
    type V = ToolV;

    open spec fn view(&self) -> ToolV {
        ToolV { name: self.name@, description: ov(self.description), parameters: self.parameters@, strict: self.strict }
    }
}

/// Model of a run of tools.
pub open spec fn tls(v: Seq<ToolDef>) -> Seq<ToolV> {
    v.map_values(|t: ToolDef| t@)
}

/// Model of [`ToolChoice`].
pub enum ChoiceV {
    Unspecified,
    Auto,
    Required,
    NoTool,
    Tool(Seq<char>),
}

impl View for ToolChoice {
    type V = ChoiceV;

    open spec fn view(&self) -> ChoiceV {
        match self {
            ToolChoice::Unspecified => ChoiceV::Unspecified,
            ToolChoice::Auto => ChoiceV::Auto,
            ToolChoice::Required => ChoiceV::Required,
            ToolChoice::NoTool => ChoiceV::NoTool,
            ToolChoice::Tool(n) => ChoiceV::Tool(n@),
        }
    }
}

/// Model of [`Sampling`].
pub struct SamplingV {
    pub temperature: Option<NumberV>,
    pub top_p: Option<NumberV>,
    pub top_k: Option<u32>,
    pub frequency_penalty: Option<NumberV>,
    pub presence_penalty: Option<NumberV>,
    pub stop: Seq<Seq<char>>,
    pub seed: Option<i64>,
    pub candidate_count: Option<u32>,
}

impl View for Sampling {
    type V = SamplingV;

    open spec fn view(&self) -> SamplingV {
        SamplingV {
            temperature: onv(self.temperature),
            top_p: onv(self.top_p),
            top_k: self.top_k,
            frequency_penalty: onv(self.frequency_penalty),
            presence_penalty: onv(self.presence_penalty),
            stop: self.stop@.map_values(|s: String| s@),
            seed: self.seed,
            candidate_count: self.candidate_count,
        }
    }
}

impl Sampling {
    pub open spec fn empty_spec() -> SamplingV {
        SamplingV {
            temperature: None,
            top_p: None,
            top_k: None,
            frequency_penalty: None,
            presence_penalty: None,
            stop: Seq::empty(),
            seed: None,
            candidate_count: None,
        }
    }
}

/// Model of [`ReasoningConfig`].
pub struct ReasoningV {
    pub effort: Option<Seq<char>>,
    pub budget_tokens: Option<u32>,
    pub include_thoughts: Option<bool>,
}

impl View for ReasoningConfig {
    type V = ReasoningV;

    open spec fn view(&self) -> ReasoningV {
        ReasoningV { effort: ov(self.effort), budget_tokens: self.budget_tokens, include_thoughts: self.include_thoughts }
    }
}

/// Model of [`ResponseFormat`].
pub enum FormatV {
    Text,
    JsonObject,
    JsonSchema { name: Seq<char>, schema: JsonV, strict: bool },
}

impl View for ResponseFormat {
    type V = FormatV;

    open spec fn view(&self) -> FormatV {
        match self {
            ResponseFormat::Text => FormatV::Text,
            ResponseFormat::JsonObject => FormatV::JsonObject,
            ResponseFormat::JsonSchema { name, schema, strict } => FormatV::JsonSchema { name: name@, schema: schema@, strict: *strict },
        }
    }
}

/// Model of [`UnifiedRequest`].
pub struct RequestV {
    pub model: Seq<char>,
    pub system: Seq<PartV>,
    pub messages: Seq<MessageV>,
    pub tools: Seq<ToolV>,
    pub tool_choice: ChoiceV,
    pub parallel_tool_calls: Option<bool>,
    pub sampling: SamplingV,
    pub max_output_tokens: Option<u32>,
    pub stream: bool,
    pub stream_include_usage: bool,
    pub reasoning: Option<ReasoningV>,
    pub response_format: Option<FormatV>,
    pub user: Option<Seq<char>>,
    pub extensions: Seq<(Seq<char>, JsonV)>,
}

impl View for UnifiedRequest {
    type V = RequestV;

    open spec fn view(&self) -> RequestV {
        RequestV {
            model: self.model@,
            system: pv(self.system),
            messages: msgs(self.messages@),
            tools: tls(self.tools@),
            tool_choice: self.tool_choice@,
            parallel_tool_calls: self.parallel_tool_calls,
            sampling: self.sampling@,
            max_output_tokens: self.max_output_tokens,
            stream: self.stream,
            stream_include_usage: self.stream_include_usage,
            reasoning: match self.reasoning {
                Some(r) => Some(r@),
                None => None,
            },
            response_format: match self.response_format {
                Some(f) => Some(f@),
                None => None,
            },
            user: ov(self.user),
            extensions: self.extensions@,
        }
    }
}

/// Model of [`UnifiedResponse`].
pub struct ResponseV {
    pub id: Seq<char>,
    pub model: Seq<char>,
    pub created: i64,
    pub content: Seq<PartV>,
    pub stop_reason: Option<StopReason>,
    pub stop_sequence: Option<Seq<char>>,
    pub usage: Usage,
    pub extensions: Seq<(Seq<char>, JsonV)>,
}

impl View for UnifiedResponse {
    type V = ResponseV;

    open spec fn view(&self) -> ResponseV {
        ResponseV {
            id: self.id@,
            model: self.model@,
            created: self.created,
            content: pv(self.content),
            stop_reason: self.stop_reason,
            stop_sequence: ov(self.stop_sequence),
            usage: self.usage,
            extensions: self.extensions@,
        }
    }
}

} // verus!
