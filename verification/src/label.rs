//! Names of tables and columns.

use crate::text::hash_text;
use vstd::prelude::*;

verus! {

/// The name of a table or a column: a 32-bit hash, or plain text.
#[derive(Debug, PartialEq, Eq, Hash)]
pub enum Label {
    /// A hashed name.
    Hash(u32),
    /// A name in plain text.
    String(String),
    /// A name in plain text that was recovered from a hash.
    Unhashed(String),
}

/// What a [`Label`] stands for in contracts.
pub enum LabelView {
    Hash(u32),
    String(Seq<char>),
    Unhashed(Seq<char>),
}

impl LabelView {
    /// The name as it is written in the text form of a table.
    pub open spec fn text(self) -> Seq<char> {
        match self {
            LabelView::Hash(hash) => hash_text(hash),
            LabelView::String(s) => s,
            LabelView::Unhashed(s) => s,
        }
    }
}

impl View for Label {
    type V = LabelView;

    open spec fn view(&self) -> LabelView {
        match self {
            Label::Hash(hash) => LabelView::Hash(*hash),
            Label::String(s) => LabelView::String(s@),
            Label::Unhashed(s) => LabelView::Unhashed(s@),
        }
    }
}

/// Formats a label with the `Display` impl of `bdat::Label`. That impl writes a
/// hashed label as `<` followed by the hash in eight upper-case hexadecimal
/// digits and `>`, and a plain or unhashed label as the string that it holds.
#[verifier::external_body]
fn display_label(label: &Label) -> (text: String)
    ensures
        text@ == label@.text(),
{
    match label {
        Label::Hash(hash) => bdat::Label::Hash(*hash).to_string(),
        Label::String(s) => bdat::Label::String(s.clone()).to_string(),
        Label::Unhashed(s) => bdat::Label::Unhashed(s.clone()).to_string(),
    }
}

impl Clone for Label {
    fn clone(&self) -> (copy: Self)
        ensures
            copy@ == self@,
    {
        match self {
            Label::Hash(hash) => Label::Hash(*hash),
            Label::String(s) => Label::String(s.clone()),
            Label::Unhashed(s) => Label::Unhashed(s.clone()),
        }
    }
}

/// Whether `a` comes before `b` in the order of texts: the texts are compared
/// character by character, a text comes after each of its beginnings, and
/// characters are ordered by their code.
pub open spec fn text_precedes(a: Seq<char>, b: Seq<char>) -> bool {
    exists|k: int| #[trigger] differ_at(a, b, k) && (k == a.len() || (k < b.len() && a[k] < b[k]))
}

/// Whether `a` and `b` are alike before position `k` and differ at it, be it
/// that one of them ends there.
pub open spec fn differ_at(a: Seq<char>, b: Seq<char>, k: int) -> bool {
    &&& 0 <= k <= a.len()
    &&& k <= b.len()
    &&& a.take(k) == b.take(k)
    &&& k < a.len() || k < b.len()
    &&& k < a.len() && k < b.len() ==> a[k] != b[k]
}

/// Two texts differ at one position at most.
pub proof fn lemma_differ_at_unique(a: Seq<char>, b: Seq<char>, j: int, k: int)
    requires
        differ_at(a, b, j),
        differ_at(a, b, k),
    ensures
        j == k,
{
    if j < k {
        assert(a.take(k)[j] == b.take(k)[j]);
    } else if k < j {
        assert(a.take(j)[k] == b.take(j)[k]);
    }
}

/// Tells whether `a` comes before `b` in the order of texts.
fn precedes(a: &str, b: &str) -> (before: bool)
    ensures
        before == text_precedes(a@, b@),
{
    let a_len = a.unicode_len();
    let b_len = b.unicode_len();
    let mut k: usize = 0;
    assert(a@.take(0) =~= b@.take(0));
    while k < a_len && k < b_len
        invariant
            a_len == a@.len(),
            b_len == b@.len(),
            k <= a_len,
            k <= b_len,
            a@.take(k as int) == b@.take(k as int),
        decreases a_len - k,
    {
        let x = a.get_char(k);
        let y = b.get_char(k);
        if x != y {
            proof {
                assert(differ_at(a@, b@, k as int));
                assert forall|j: int| differ_at(a@, b@, j) implies j == k by {
                    lemma_differ_at_unique(a@, b@, j, k as int);
                }
            }
            return x < y;
        }
        assert(a@.take(k + 1) =~= a@.take(k as int).push(x));
        assert(b@.take(k + 1) =~= b@.take(k as int).push(y));
        k += 1;
    }
    proof {
        if a_len != b_len {
            assert(differ_at(a@, b@, k as int));
            assert forall|j: int| differ_at(a@, b@, j) implies j == k by {
                lemma_differ_at_unique(a@, b@, j, k as int);
            }
        } else {
            assert(a@.take(k as int) =~= a@);
            assert(b@.take(k as int) =~= b@);
            assert forall|j: int| !differ_at(a@, b@, j) by {
                if differ_at(a@, b@, j) && j < a_len {
                    assert(a@[j] == b@[j]);
                }
            }
        }
    }
    a_len < b_len
}

impl Label {
    /// The name as it is written in the text form of a table.
    pub fn text(&self) -> (text: String)
        ensures
            text@ == self@.text(),
    {
        display_label(self)
    }

    /// Whether the two labels are written alike in the text form. A hashed
    /// label and a plain one that spells its bracketed digits name the same
    /// thing there.
    pub fn same_name(&self, other: &Label) -> (same: bool)
        ensures
            same == (self@.text() == other@.text()),
    {
        let mine = self.text();
        let theirs = other.text();
        mine == theirs
    }

    /// Whether this label comes before `other` in the order of labels, which
    /// is that of their texts.
    pub fn precedes(&self, other: &Label) -> (before: bool)
        ensures
            before == text_precedes(self@.text(), other@.text()),
    {
        let mine = self.text();
        let theirs = other.text();
        precedes(mine.as_str(), theirs.as_str())
    }
}

/// The order of texts is a strict total order on them.
pub proof fn lemma_text_order(a: Seq<char>, b: Seq<char>, c: Seq<char>)
    ensures
        !text_precedes(a, a),
        text_precedes(a, b) || text_precedes(b, a) || a == b,
        !(text_precedes(a, b) && text_precedes(b, a)),
        text_precedes(a, b) && text_precedes(b, c) ==> text_precedes(a, c),
{
    assert(a.take(0) =~= b.take(0));
    lemma_first_difference(a, b, 0);
    if a != b {
        let k = choose|k: int| #[trigger] differ_at(a, b, k);
        assert(differ_at(b, a, k));
    }
    assert forall|k: int| !#[trigger] differ_at(a, a, k) by {}
    if text_precedes(a, b) && text_precedes(b, a) {
        let j = choose|k: int|
            #[trigger] differ_at(a, b, k) && (k == a.len() || (k < b.len() && a[k] < b[k]));
        let k = choose|k: int|
            #[trigger] differ_at(b, a, k) && (k == b.len() || (k < a.len() && b[k] < a[k]));
        assert(differ_at(a, b, k));
        lemma_differ_at_unique(a, b, j, k);
    }
    if text_precedes(a, b) && text_precedes(b, c) {
        let j = choose|k: int|
            #[trigger] differ_at(a, b, k) && (k == a.len() || (k < b.len() && a[k] < b[k]));
        let k = choose|k: int|
            #[trigger] differ_at(b, c, k) && (k == b.len() || (k < c.len() && b[k] < c[k]));
        let m = if j < k {
            j
        } else {
            k
        };
        assert(a.take(m) =~= a.take(j).take(m));
        assert(b.take(m) =~= b.take(j).take(m));
        assert(b.take(m) =~= b.take(k).take(m));
        assert(c.take(m) =~= c.take(k).take(m));
        if j < k {
            assert(b.take(k)[j] == c.take(k)[j]);
        } else if k < j {
            assert(a.take(j)[k] == b.take(j)[k]);
        }
        assert(differ_at(a, c, m));
    }
}

/// Two texts are equal, or differ at some position from `from` on, where they
/// are alike before `from`.
proof fn lemma_first_difference(a: Seq<char>, b: Seq<char>, from: int)
    requires
        0 <= from <= a.len(),
        from <= b.len(),
        a.take(from) == b.take(from),
    ensures
        a == b || exists|k: int| #[trigger] differ_at(a, b, k),
    decreases a.len() - from,
{
    if from == a.len() || from == b.len() {
        if a.len() == b.len() {
            assert(a.take(from) =~= a);
            assert(b.take(from) =~= b);
        } else {
            assert(differ_at(a, b, from));
        }
    } else if a[from] != b[from] {
        assert(differ_at(a, b, from));
    } else {
        assert(a.take(from + 1) =~= a.take(from).push(a[from]));
        assert(b.take(from + 1) =~= b.take(from).push(b[from]));
        lemma_first_difference(a, b, from + 1);
    }
}

/// The name of a table or a column that may have none.
#[derive(Debug, PartialEq, Eq, Hash)]
pub struct OptLabel(pub Option<Label>);

impl View for OptLabel {
    type V = Option<LabelView>;

    open spec fn view(&self) -> Option<LabelView> {
        match self.0 {
            Some(label) => Some(label@),
            None => None,
        }
    }
}

/// The text by which a label is told from others: its text, or none for a
/// missing label. A missing label is equal to a missing label only.
pub open spec fn label_name(label: Option<LabelView>) -> Option<Seq<char>> {
    match label {
        Some(l) => Some(l.text()),
        None => None,
    }
}

/// The text that is shown for a label: its text, or `<Unnamed>` for a missing
/// label.
pub open spec fn label_text(label: Option<LabelView>) -> Seq<char> {
    match label {
        Some(l) => l.text(),
        None => "<Unnamed>"@,
    }
}

impl OptLabel {
    /// The label that is missing.
    pub fn unnamed() -> (label: OptLabel)
        ensures
            label@ is None,
    {
        OptLabel(None)
    }

    /// The text that is shown for the label: `<Unnamed>` where it is missing.
    pub fn to_string(&self) -> (text: String)
        ensures
            text@ == label_text(self@),
    {
        match &self.0 {
            Some(label) => label.text(),
            None => String::from_str("<Unnamed>"),
        }
    }

    /// Whether the two labels name the same thing: both are missing, or both
    /// are there and written alike.
    pub fn same_name(&self, other: &OptLabel) -> (same: bool)
        ensures
            same == (label_name(self@) == label_name(other@)),
    {
        match (&self.0, &other.0) {
            (Some(mine), Some(theirs)) => mine.same_name(theirs),
            (None, None) => true,
            _ => false,
        }
    }
}

impl Clone for OptLabel {
    fn clone(&self) -> (copy: Self)
        ensures
            copy@ == self@,
    {
        match &self.0 {
            Some(label) => OptLabel(Some(label.clone())),
            None => OptLabel(None),
        }
    }
}

impl From<Option<Label>> for OptLabel {
    fn from(label: Option<Label>) -> (wrapped: OptLabel) {
        OptLabel(label)
    }
}

impl vstd::std_specs::convert::FromSpecImpl<Option<Label>> for OptLabel {
    open spec fn obeys_from_spec() -> bool {
        true
    }

    open spec fn from_spec(label: Option<Label>) -> OptLabel {
        OptLabel(label)
    }
}

impl From<Label> for OptLabel {
    fn from(label: Label) -> (wrapped: OptLabel) {
        OptLabel(Some(label))
    }
}

impl vstd::std_specs::convert::FromSpecImpl<Label> for OptLabel {
    open spec fn obeys_from_spec() -> bool {
        true
    }

    open spec fn from_spec(label: Label) -> OptLabel {
        OptLabel(Some(label))
    }
}

} // verus!
