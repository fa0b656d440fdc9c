//! What is known of the input before the transcode starts.
//!
//! A [`Format`] holds the facts that a probe of the input reports about its
//! container. Among them is a mapping from tag names to tag values,
//! [`Tags`], which holds every name once and keeps its entries in the order
//! of the names' UTF-8 encodings.

use vstd::prelude::*;
use vstd::utf8::{encode_utf8, encode_utf8_decode_utf8};
use crate::duration::Duration;

verus! {

/// Whether `a` stands before `b` in the order of byte strings: at the first
/// byte in which they differ `a` has the lesser one, or `a` ends first.
pub open spec fn bytes_before(a: Seq<u8>, b: Seq<u8>) -> bool
    decreases a.len(),
{
    if b.len() == 0 {
        false
    } else if a.len() == 0 {
        true
    } else if a[0] != b[0] {
        a[0] < b[0]
    } else {
        bytes_before(a.drop_first(), b.drop_first())
    }
}

/// Whether the name `a` stands before the name `b`: the UTF-8 encoding of
/// `a` stands before that of `b`.
pub open spec fn name_before(a: Seq<char>, b: Seq<char>) -> bool {
    bytes_before(encode_utf8(a), encode_utf8(b))
}

/// Of two byte strings exactly one thing holds: they are equal, the first
/// stands before the second, or the second before the first.
pub proof fn lemma_bytes_order(a: Seq<u8>, b: Seq<u8>)
    ensures
        a == b || bytes_before(a, b) || bytes_before(b, a),
        !(a == b && bytes_before(a, b)),
        !(a == b && bytes_before(b, a)),
        !(bytes_before(a, b) && bytes_before(b, a)),
    decreases a.len(),
{
    if a.len() == 0 || b.len() == 0 {
        if a.len() == 0 && b.len() == 0 {
            assert(a =~= b);
        }
    } else if a[0] == b[0] {
        lemma_bytes_order(a.drop_first(), b.drop_first());
        if a.drop_first() == b.drop_first() {
            assert(a =~= seq![a[0]] + a.drop_first());
            assert(b =~= seq![b[0]] + b.drop_first());
        }
    }
}

/// Of two names exactly one thing holds: they are equal, the first stands
/// before the second, or the second before the first.
pub proof fn lemma_name_order(a: Seq<char>, b: Seq<char>)
    ensures
        a == b || name_before(a, b) || name_before(b, a),
        !(a == b && name_before(a, b)),
        !(a == b && name_before(b, a)),
        !(name_before(a, b) && name_before(b, a)),
        a == b <==> encode_utf8(a) == encode_utf8(b),
{
    lemma_bytes_order(encode_utf8(a), encode_utf8(b));
    encode_utf8_decode_utf8(a);
    encode_utf8_decode_utf8(b);
}

/// Whether every name in `entries` stands before the name after it.
pub open spec fn ordered(entries: Seq<(Seq<char>, Seq<char>)>) -> bool {
    forall|i: int| 0 <= i < entries.len() - 1 ==> name_before(#[trigger] entries[i].0, entries[i + 1].0)
}

/// The ordered entries `entries` after `name` has been given `value`: the
/// entry of that name has the new value if there is one, else a new entry
/// stands where the order puts it.
pub open spec fn inserted(
    entries: Seq<(Seq<char>, Seq<char>)>,
    name: Seq<char>,
    value: Seq<char>,
) -> Seq<(Seq<char>, Seq<char>)>
    decreases entries.len(),
{
    if entries.len() == 0 {
        seq![(name, value)]
    } else if entries.last().0 == name {
        entries.drop_last().push((name, value))
    } else if name_before(entries.last().0, name) {
        entries.push((name, value))
    } else {
        inserted(entries.drop_last(), name, value).push(entries.last())
    }
}

/// To give a name a value keeps ordered entries ordered. The last name
/// afterwards is the given one or the one that was last.
pub proof fn lemma_inserted_ordered(
    entries: Seq<(Seq<char>, Seq<char>)>,
    name: Seq<char>,
    value: Seq<char>,
)
    requires
        ordered(entries),
    ensures
        ordered(inserted(entries, name, value)),
        inserted(entries, name, value).len() > 0,
        inserted(entries, name, value).last().0 == name || (entries.len() > 0 && inserted(
            entries,
            name,
            value,
        ).last().0 == entries.last().0),
    decreases entries.len(),
{
    let after = inserted(entries, name, value);
    if entries.len() == 0 {
    } else if entries.last().0 == name {
        assert forall|i: int| 0 <= i < after.len() - 1 implies name_before(
            #[trigger] after[i].0,
            after[i + 1].0,
        ) by {
            assert(after[i] == entries[i]);
            assert(after[i + 1].0 == entries[i + 1].0);
        }
    } else if name_before(entries.last().0, name) {
        assert forall|i: int| 0 <= i < after.len() - 1 implies name_before(
            #[trigger] after[i].0,
            after[i + 1].0,
        ) by {
            assert(after[i] == entries[i]);
            if i + 1 < entries.len() {
                assert(after[i + 1] == entries[i + 1]);
            }
        }
    } else {
        let front = entries.drop_last();
        assert(ordered(front)) by {
            assert forall|i: int| 0 <= i < front.len() - 1 implies name_before(
                #[trigger] front[i].0,
                front[i + 1].0,
            ) by {
                assert(front[i] == entries[i]);
                assert(front[i + 1] == entries[i + 1]);
            }
        }
        lemma_inserted_ordered(front, name, value);
        lemma_name_order(entries.last().0, name);
        let inner = inserted(front, name, value);
        assert forall|i: int| 0 <= i < after.len() - 1 implies name_before(
            #[trigger] after[i].0,
            after[i + 1].0,
        ) by {
            if i + 1 < inner.len() {
                assert(after[i] == inner[i]);
                assert(after[i + 1] == inner[i + 1]);
            } else {
                assert(after[i] == inner.last());
                assert(after[i + 1] == entries.last());
                if inner.last().0 != name {
                    assert(front.last() == entries[entries.len() - 2]);
                }
            }
        }
    }
}

/// To give a name that stands after every name of ordered entries a value
/// appends an entry.
pub proof fn lemma_inserted_last(
    entries: Seq<(Seq<char>, Seq<char>)>,
    name: Seq<char>,
    value: Seq<char>,
)
    requires
        entries.len() > 0 ==> name_before(entries.last().0, name),
    ensures
        inserted(entries, name, value) == entries.push((name, value)),
{
    if entries.len() > 0 {
        lemma_name_order(entries.last().0, name);
    }
}

/// Where the order puts a name among ordered entries, there `inserted` puts
/// it: given that every name from index `at` on stands after `name`, and
/// that the name before `at` is `name` itself (`replace`) or stands before
/// it, the entry before `at` gets the new value, or a new entry stands at
/// `at`.
proof fn lemma_inserted_at(
    entries: Seq<(Seq<char>, Seq<char>)>,
    name: Seq<char>,
    value: Seq<char>,
    at: int,
    replace: bool,
)
    requires
        0 <= at <= entries.len(),
        forall|j: int| at <= j < entries.len() ==> name_before(name, #[trigger] entries[j].0),
        replace ==> at > 0 && entries[at - 1].0 == name,
        !replace && at > 0 ==> name_before(entries[at - 1].0, name),
    ensures
        inserted(entries, name, value) == if replace {
            entries.update(at - 1, (name, value))
        } else {
            entries.insert(at, (name, value))
        },
    decreases entries.len() - at,
{
    if at == entries.len() {
        if entries.len() > 0 {
            lemma_name_order(entries.last().0, name);
        }
        if replace {
            assert(entries.drop_last().push((name, value)) =~= entries.update(
                at - 1,
                (name, value),
            ));
        } else {
            assert(inserted(entries, name, value) =~= entries.insert(at, (name, value)));
        }
    } else {
        let front = entries.drop_last();
        assert(name_before(name, entries[entries.len() - 1].0));
        lemma_name_order(entries.last().0, name);
        assert forall|j: int| at <= j < front.len() implies name_before(
            name,
            #[trigger] front[j].0,
        ) by {
            assert(front[j] == entries[j]);
        }
        if at > 0 {
            assert(front[at - 1] == entries[at - 1]);
        }
        lemma_inserted_at(front, name, value, at, replace);
        if replace {
            assert(front.update(at - 1, (name, value)).push(entries.last()) =~= entries.update(
                at - 1,
                (name, value),
            ));
        } else {
            assert(front.insert(at, (name, value)).push(entries.last()) =~= entries.insert(
                at,
                (name, value),
            ));
        }
    }
}

/// How one byte string stands to another.
#[derive(Clone, Copy, Debug, PartialEq, Eq, Structural)]
pub enum Rank {
    Before,
    Same,
    After,
}

/// How `a` stands to `b` in the order of byte strings.
pub fn rank(a: &[u8], b: &[u8]) -> (r: Rank)
    ensures
        r == Rank::Before <==> bytes_before(a@, b@),
        r == Rank::Same <==> a@ == b@,
        r == Rank::After <==> bytes_before(b@, a@),
{
    let mut i: usize = 0;
    assert(a@.skip(0) =~= a@);
    assert(b@.skip(0) =~= b@);
    while i < a.len() && i < b.len() && a[i] == b[i]
        invariant
            i <= a.len(),
            i <= b.len(),
            a@.take(i as int) == b@.take(i as int),
            bytes_before(a@, b@) == bytes_before(a@.skip(i as int), b@.skip(i as int)),
            bytes_before(b@, a@) == bytes_before(b@.skip(i as int), a@.skip(i as int)),
        decreases a.len() - i,
    {
        assert(a@.skip(i as int).drop_first() =~= a@.skip(i + 1));
        assert(b@.skip(i as int).drop_first() =~= b@.skip(i + 1));
        assert(a@.take(i + 1) =~= a@.take(i as int).push(a@[i as int]));
        assert(b@.take(i + 1) =~= b@.take(i as int).push(b@[i as int]));
        i += 1;
    }
    proof {
        lemma_bytes_order(a@, b@);
        if i < a.len() && i < b.len() {
            assert(a@[i as int] != b@[i as int]);
        }
    }
    if i == a.len() && i == b.len() {
        assert(a@ =~= a@.take(i as int));
        assert(b@ =~= b@.take(i as int));
        Rank::Same
    } else if i == a.len() {
        Rank::Before
    } else if i == b.len() {
        Rank::After
    } else if a[i] < b[i] {
        Rank::Before
    } else {
        Rank::After
    }
}

/// The views of the entries `entries`.
pub open spec fn entry_views(entries: Seq<(String, String)>) -> Seq<(Seq<char>, Seq<char>)> {
    Seq::new(entries.len(), |i: int| (entries[i].0@, entries[i].1@))
}

/// A mapping from tag names to tag values.
///
/// The view is the entries in the order of their names. No name occurs
/// twice.
#[derive(Debug, PartialEq, Eq)]
pub struct Tags {
    entries: Vec<(String, String)>,
}

impl View for Tags {
    type V = Seq<(Seq<char>, Seq<char>)>;

    closed spec fn view(&self) -> Seq<(Seq<char>, Seq<char>)> {
        entry_views(self.entries@)
    }
}

impl Tags {
    /// Every name stands before the next.
    #[verifier::type_invariant]
    pub closed spec fn wf(self) -> bool {
        ordered(entry_views(self.entries@))
    }

    /// The entries of a well-formed mapping are in the order of their names.
    pub proof fn lemma_ordered(self)
        requires
            self.wf(),
        ensures
            ordered(self@),
    {
    }

    /// A mapping without entries.
    pub fn new() -> (r: Self)
        ensures
            r@ == Seq::<(Seq<char>, Seq<char>)>::empty(),
            r.wf(),
    {
        let r = Tags { entries: Vec::new() };
        assert(r@ =~= Seq::<(Seq<char>, Seq<char>)>::empty());
        r
    }

    /// How many names have a value.
    pub fn len(&self) -> (r: usize)
        ensures
            r == self@.len(),
    {
        self.entries.len()
    }

    /// The entries in the order of their names.
    pub fn entries(&self) -> (r: &[(String, String)])
        ensures
            entry_views(r@) == self@,
            ordered(self@),
    {
        proof {
            use_type_invariant(self);
        }
        self.entries.as_slice()
    }

    /// Gives `name` the value `value`, in place of the value that it had if
    /// it had one.
    pub fn insert(&mut self, name: String, value: String)
        ensures
            final(self)@ == inserted(old(self)@, name@, value@),
            final(self).wf(),
    {
        proof {
            use_type_invariant(&*self);
        }
        let ghost before = self@;
        let mut entries: Vec<(String, String)> = Vec::new();
        assert(ordered(entry_views(entries@)));
        core::mem::swap(&mut self.entries, &mut entries);
        let (at, replace) = locate(&entries, name.as_str());
        proof {
            lemma_inserted_at(before, name@, value@, at as int, replace);
            lemma_inserted_ordered(before, name@, value@);
        }
        if replace {
            entries.set(at - 1, (name, value));
            assert(entry_views(entries@) =~= before.update(at - 1, (name@, value@)));
        } else {
            entries.insert(at, (name, value));
            assert(entry_views(entries@) =~= before.insert(at as int, (name@, value@)));
        }
        core::mem::swap(&mut self.entries, &mut entries);
    }
}

impl Clone for Tags {
    /// A mapping with the same entries.
    fn clone(&self) -> (r: Self)
        ensures
            r@ == self@,
    {
        proof {
            use_type_invariant(self);
        }
        let mut entries: Vec<(String, String)> = Vec::new();
        let mut i: usize = 0;
        while i < self.entries.len()
            invariant
                i <= self.entries.len(),
                entry_views(entries@) == entry_views(self.entries@).take(i as int),
            decreases self.entries.len() - i,
        {
            let ghost before = entries@;
            let name = self.entries[i].0.clone();
            let value = self.entries[i].1.clone();
            entries.push((name, value));
            i += 1;
            proof {
                let got = entry_views(entries@);
                let want = entry_views(self.entries@).take(i as int);
                assert(entry_views(self.entries@).len() == self.entries@.len());
                assert(entry_views(before).len() == before.len());
                assert(got.len() == entries@.len());
                assert(got.len() == want.len());
                assert forall|j: int| 0 <= j < got.len() implies got[j] == want[j] by {
                    if j < before.len() {
                        assert(entries@[j] == before[j]);
                        assert(entry_views(before)[j] == entry_views(self.entries@).take(i - 1)[j]);
                    }
                }
                assert(got =~= want);
            }
        }
        assert(entry_views(self.entries@).take(i as int) =~= entry_views(self.entries@));
        Tags { entries }
    }
}

/// Finds where the order puts `name` among `entries`: the index from which
/// on every name stands after `name`, and whether the name before it is
/// `name` itself.
fn locate(entries: &Vec<(String, String)>, name: &str) -> (r: (usize, bool))
    ensures
        r.0 <= entries.len(),
        forall|j: int|
            r.0 <= j < entries.len() ==> name_before(name@, #[trigger] entry_views(entries@)[j].0),
        r.1 ==> r.0 > 0 && entry_views(entries@)[r.0 - 1].0 == name@,
        !r.1 && r.0 > 0 ==> name_before(entry_views(entries@)[r.0 - 1].0, name@),
{
    let ghost all = entry_views(entries@);
    let mut i: usize = entries.len();
    while i > 0
        invariant
            i <= entries.len(),
            all == entry_views(entries@),
            forall|j: int| i <= j < entries.len() ==> name_before(name@, #[trigger] all[j].0),
        decreases i,
    {
        let other = entries[i - 1].0.as_str();
        let r = rank(name.as_bytes(), other.as_bytes());
        proof {
            assert(all[i - 1].0 == other@);
            lemma_name_order(name@, other@);
        }
        match r {
            Rank::Before => {
                i -= 1;
            },
            Rank::Same => {
                return (i, true);
            },
            Rank::After => {
                return (i, false);
            },
        }
    }
    (i, false)
}

/// What a [`Format`] holds, with texts as sequences of characters.
pub struct FormatView {
    pub filename: Seq<char>,
    pub nb_streams: u32,
    pub nb_programs: u32,
    pub format_name: Seq<char>,
    pub format_long_name: Option<Seq<char>>,
    pub start_time: Duration,
    pub duration: Duration,
    pub size: u64,
    pub bit_rate: u64,
    pub probe_score: u8,
    pub tags: Seq<(Seq<char>, Seq<char>)>,
}

/// The facts about the input's container.
#[derive(Clone, Debug, PartialEq, Eq)]
pub struct Format {
    /// The name of the input.
    pub filename: String,
    /// How many streams the input has.
    pub nb_streams: u32,
    /// How many programs the input has.
    pub nb_programs: u32,
    /// The short names of the container format.
    pub format_name: String,
    /// The long name of the container format, if it has one.
    pub format_long_name: Option<String>,
    /// Where the input starts.
    pub start_time: Duration,
    /// How long the input is.
    pub duration: Duration,
    /// The size of the input in bytes.
    pub size: u64,
    /// The bit rate of the input in bits per second.
    pub bit_rate: u64,
    /// How sure the probe is of the format, out of 100.
    pub probe_score: u8,
    /// The container's tags.
    pub tags: Tags,
}

impl View for Format {
    type V = FormatView;

    open spec fn view(&self) -> FormatView {
        FormatView {
            filename: self.filename@,
            nb_streams: self.nb_streams,
            nb_programs: self.nb_programs,
            format_name: self.format_name@,
            format_long_name: match self.format_long_name {
                Some(s) => Some(s@),
                None => None,
            },
            start_time: self.start_time,
            duration: self.duration,
            size: self.size,
            bit_rate: self.bit_rate,
            probe_score: self.probe_score,
            tags: self.tags@,
        }
    }
}

} // verus!
