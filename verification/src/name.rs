//! Domain names as sequences of labels.

use vstd::prelude::*;

verus! {

/// The longest label a name may hold, in bytes.
pub const MAX_LABEL_LEN: usize = 63;

/// The longest name, counted as on the wire: one length byte before each
/// label and one terminating zero byte.
pub const MAX_NAME_WIRE_LEN: usize = 255;

/// A label is a non-empty run of at most 63 bytes.
pub open spec fn valid_label(label: Seq<u8>) -> bool {
    1 <= label.len() <= MAX_LABEL_LEN
}

/// Bytes that the labels take on the wire without the terminating zero byte.
pub open spec fn labels_wire_len(labels: Seq<Seq<u8>>) -> int
    decreases labels.len(),
{
    if labels.len() == 0 {
        0
    } else {
        labels[0].len() + 1 + labels_wire_len(labels.drop_first())
    }
}

/// Bytes that a name takes on the wire, terminator included.
pub open spec fn name_wire_len(labels: Seq<Seq<u8>>) -> int {
    labels_wire_len(labels) + 1
}

/// A name is valid when each label is and the whole fits in 255 bytes.
pub open spec fn valid_name(labels: Seq<Seq<u8>>) -> bool {
    &&& forall|i: int| 0 <= i < labels.len() ==> valid_label(#[trigger] labels[i])
    &&& name_wire_len(labels) <= MAX_NAME_WIRE_LEN
}

/// The labels held by a vector of byte vectors.
pub open spec fn labels_of(labels: Seq<Vec<u8>>) -> Seq<Seq<u8>> {
    Seq::new(labels.len(), |i: int| labels[i]@)
}

/// Labels joined take the bytes of both parts.
pub(crate) proof fn lemma_labels_wire_len_concat(a: Seq<Seq<u8>>, b: Seq<Seq<u8>>)
    ensures
        labels_wire_len(a + b) == labels_wire_len(a) + labels_wire_len(b),
    decreases a.len(),
{
    if a.len() == 0 {
        assert(a + b =~= b);
    } else {
        assert((a + b).drop_first() =~= a.drop_first() + b);
        lemma_labels_wire_len_concat(a.drop_first(), b);
    }
}

/// One more label takes its bytes and one for its length.
pub(crate) proof fn lemma_labels_wire_len_push(a: Seq<Seq<u8>>, label: Seq<u8>)
    ensures
        labels_wire_len(a.push(label)) == labels_wire_len(a) + label.len() + 1,
{
    let one = seq![label];
    assert(one.drop_first() =~= Seq::<Seq<u8>>::empty());
    assert(labels_wire_len(one.drop_first()) == 0);
    assert(a.push(label) =~= a + one);
    lemma_labels_wire_len_concat(a, one);
}

/// Each label takes at least the byte for its length.
pub(crate) proof fn lemma_labels_wire_len_nonnegative(a: Seq<Seq<u8>>)
    ensures
        labels_wire_len(a) >= a.len(),
    decreases a.len(),
{
    if a.len() > 0 {
        lemma_labels_wire_len_nonnegative(a.drop_first());
    }
}

/// A domain name: its labels from the leftmost to the one below the root.
/// The root itself is the name without labels.
///
/// Labels are kept byte for byte. Names that differ only in the case of
/// their letters name the same domain and are still different values here.
#[derive(Debug, PartialEq, Eq)]
pub struct DomainName {
    pub labels: Vec<Vec<u8>>,
}

impl View for DomainName {
    type V = Seq<Seq<u8>>;

    open spec fn view(&self) -> Seq<Seq<u8>> {
        labels_of(self.labels@)
    }
}

impl Clone for DomainName {
    fn clone(&self) -> (copy: Self)
        ensures
            copy@ == self@,
    {
        let mut labels: Vec<Vec<u8>> = Vec::new();
        let mut i: usize = 0;
        while i < self.labels.len()
            invariant
                i <= self.labels.len(),
                labels.len() == i,
                forall|j: int| 0 <= j < i ==> (#[trigger] labels[j])@ == self.labels[j]@,
            decreases self.labels.len() - i,
        {
            let label = self.labels[i].clone();
            assert(label@ =~= self.labels[i as int]@);
            labels.push(label);
            i += 1;
        }
        let copy = DomainName { labels };
        assert(copy@ =~= self@);
        copy
    }
}

impl DomainName {
    /// The root name.
    pub fn root() -> (name: DomainName)
        ensures
            name@ == Seq::<Seq<u8>>::empty(),
            valid_name(name@),
    {
        let name = DomainName { labels: Vec::new() };
        assert(name@ =~= Seq::<Seq<u8>>::empty());
        name
    }

    /// Says whether the name keeps the limits on label and name length.
    pub fn is_valid(&self) -> (ok: bool)
        ensures
            ok == valid_name(self@),
    {
        let mut total: usize = 1;
        let mut i: usize = 0;
        while i < self.labels.len()
            invariant
                i <= self.labels.len(),
                total == name_wire_len(self@.take(i as int)),
                total <= MAX_NAME_WIRE_LEN,
                forall|j: int| 0 <= j < i ==> valid_label(#[trigger] self@[j]),
            decreases self.labels.len() - i,
        {
            let len = self.labels[i].len();
            proof {
                assert(self@.take(i + 1) =~= self@.take(i as int).push(self@[i as int]));
                lemma_labels_wire_len_push(self@.take(i as int), self@[i as int]);
                lemma_labels_wire_len_concat(self@.take(i + 1), self@.skip(i + 1));
                lemma_labels_wire_len_nonnegative(self@.skip(i + 1));
                assert(self@.take(i + 1) + self@.skip(i + 1) =~= self@);
            }
            if len == 0 || len > MAX_LABEL_LEN {
                assert(!valid_label(self@[i as int]));
                return false;
            }
            if total + len + 1 > MAX_NAME_WIRE_LEN {
                return false;
            }
            total = total + len + 1;
            i += 1;
        }
        assert(self@.take(i as int) =~= self@);
        true
    }
}

} // verus!
