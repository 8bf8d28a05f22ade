//! Metric lines of the form `name{key="value",...} value`.

use vstd::prelude::*;

verus! {

/// A label as the pair of its key and value.
pub type LabelView = (Seq<char>, Seq<char>);

pub open spec fn label_pairs(labels: Seq<(String, String)>) -> Seq<LabelView> {
    labels.map_values(|p: (String, String)| (p.0@, p.1@))
}

/// `key="value"`.
pub open spec fn label_text(label: LabelView) -> Seq<char> {
    label.0 + seq!['=', '"'] + label.1 + seq!['"']
}

/// The labels written one after another, separated by commas.
pub open spec fn labels_text(labels: Seq<LabelView>) -> Seq<char>
    decreases labels.len(),
{
    if labels.len() == 0 {
        Seq::<char>::empty()
    } else if labels.len() == 1 {
        label_text(labels[0])
    } else {
        labels_text(labels.drop_last()) + seq![','] + label_text(labels.last())
    }
}

/// One metric line, without its line break: the name, the labels in braces
/// (left out when there are none), a space and the value.
pub open spec fn line_text(name: Seq<char>, labels: Seq<LabelView>, value: Seq<char>) -> Seq<char> {
    name + (if labels.len() == 0 {
        Seq::<char>::empty()
    } else {
        seq!['{'] + labels_text(labels) + seq!['}']
    }) + seq![' '] + value
}

/// An ordered list of labels shared by several metrics.
#[derive(Clone)]
pub struct LabelSet {
    labels: Vec<(String, String)>,
}

impl View for LabelSet {
    type V = Seq<LabelView>;

    closed spec fn view(&self) -> Seq<LabelView> {
        label_pairs(self.labels@)
    }
}

/// A metric whose name and labels are set, waiting for its value.
pub struct MetricBuilder {
    name: String,
    labels: Vec<(String, String)>,
}

impl MetricBuilder {
    pub closed spec fn name(&self) -> Seq<char> {
        self.name@
    }

    pub closed spec fn label_list(&self) -> Seq<LabelView> {
        label_pairs(self.labels@)
    }
}

/// A metric with name, labels and rendered value.
pub struct Metric {
    name: String,
    labels: Vec<(String, String)>,
    value: String,
}

impl Metric {
    pub closed spec fn name(&self) -> Seq<char> {
        self.name@
    }

    pub closed spec fn label_list(&self) -> Seq<LabelView> {
        label_pairs(self.labels@)
    }

    pub closed spec fn value_text(&self) -> Seq<char> {
        self.value@
    }
}

/// Starts a metric with the given name and no labels.
pub fn metric(name: &str) -> (r: MetricBuilder)
    ensures
        r.name() == name@,
        r.label_list() == Seq::<LabelView>::empty(),
{
    let r = MetricBuilder { name: name.to_owned(), labels: Vec::new() };
    assert(r.label_list() =~= Seq::<LabelView>::empty());
    r
}

/// An empty label set.
pub fn labelset() -> (r: LabelSet)
    ensures
        r@ == Seq::<LabelView>::empty(),
{
    let r = LabelSet { labels: Vec::new() };
    assert(r@ =~= Seq::<LabelView>::empty());
    r
}

fn push_label(labels: &mut Vec<(String, String)>, key: &str, value: &str)
    ensures
        label_pairs(final(labels)@) == label_pairs(old(labels)@).push((key@, value@)),
{
    labels.push((key.to_owned(), value.to_owned()));
    assert(label_pairs(final(labels)@) =~= label_pairs(old(labels)@).push((key@, value@)));
}

impl LabelSet {
    /// Appends one label.
    pub fn label(self, key: &str, value: &str) -> (r: Self)
        ensures
            r@ == self@.push((key@, value@)),
    {
        let mut s = self;
        push_label(&mut s.labels, key, value);
        s
    }
}

impl MetricBuilder {
    /// Appends every label of a label set, in its order.
    pub fn labels(self, labelset: &LabelSet) -> (r: Self)
        ensures
            r.name() == self.name(),
            r.label_list() == self.label_list() + labelset@,
    {
        let mut s = self;
        let mut i: usize = 0;
        while i < labelset.labels.len()
            invariant
                i <= labelset.labels@.len(),
                s.name() == self.name(),
                s.label_list() == self.label_list() + labelset@.subrange(0, i as int),
            decreases labelset.labels@.len() - i,
        {
            let (key, value) = &labelset.labels[i];
            push_label(&mut s.labels, key.as_str(), value.as_str());
            assert(labelset@.subrange(0, i + 1) =~= labelset@.subrange(0, i as int).push(
                labelset@[i as int],
            ));
            assert(s.label_list() =~= self.label_list() + labelset@.subrange(0, i + 1));
            i = i + 1;
        }
        assert(labelset@.subrange(0, i as int) =~= labelset@);
        s
    }

    /// Appends one label.
    pub fn label(self, key: &str, value: &str) -> (r: Self)
        ensures
            r.name() == self.name(),
            r.label_list() == self.label_list().push((key@, value@)),
    {
        let mut s = self;
        push_label(&mut s.labels, key, value);
        s
    }

    /// Completes the metric with its rendered value.
    pub fn value(self, value: String) -> (r: Metric)
        ensures
            r.name() == self.name(),
            r.label_list() == self.label_list(),
            r.value_text() == value@,
    {
        Metric { name: self.name, labels: self.labels, value }
    }
}

impl Metric {
    /// The metric's line, without a line break.
    pub fn to_string(&self) -> (r: String)
        ensures
            r@ == line_text(self.name(), self.label_list(), self.value_text()),
    {
        proof {
            reveal_strlit("{");
            reveal_strlit("}");
            reveal_strlit(",");
            reveal_strlit("=\"");
            reveal_strlit("\"");
            reveal_strlit(" ");
        }
        let ghost ls = self.label_list();
        let mut out = self.name.clone();
        let n = self.labels.len();
        if n > 0 {
            out.append("{");
            let ghost start = out@;
            let mut i: usize = 0;
            while i < n
                invariant
                    n == self.labels@.len(),
                    ls == self.label_list(),
                    0 < n,
                    i <= n,
                    out@ == start + labels_text(ls.subrange(0, i as int)),
                decreases n - i,
            {
                let ghost before = out@;
                if i > 0 {
                    out.append(",");
                }
                let (key, value) = &self.labels[i];
                out.append(key.as_str());
                out.append("=\"");
                out.append(value.as_str());
                out.append("\"");
                proof {
                    let sub = ls.subrange(0, i + 1);
                    assert(sub.drop_last() =~= ls.subrange(0, i as int));
                    assert(sub.last() == ls[i as int]);
                    assert(ls[i as int] == (key@, value@));
                    reveal_strlit("=\"");
                    reveal_strlit("\"");
                    reveal_strlit(",");
                    assert("=\""@ =~= seq!['=', '"']);
                    assert("\""@ =~= seq!['"']);
                    assert(","@ =~= seq![',']);
                    if i == 0 {
                        assert(sub.len() == 1);
                        assert(ls.subrange(0, 0) =~= Seq::<LabelView>::empty());
                        assert(labels_text(sub) == label_text(ls[i as int]));
                        assert(out@ =~= start + labels_text(sub));
                    } else {
                        assert(labels_text(sub) == labels_text(ls.subrange(0, i as int)) + seq![',']
                            + label_text(ls[i as int]));
                        assert(out@ =~= start + labels_text(sub));
                    }
                }
                i = i + 1;
            }
            assert(ls.subrange(0, n as int) =~= ls);
            out.append("}");
            assert("{"@ =~= seq!['{']);
            assert("}"@ =~= seq!['}']);
        }
        out.append(" ");
        out.append(self.value.as_str());
        proof {
            assert(" "@ =~= seq![' ']);
            if n > 0 {
                assert(out@ =~= line_text(self.name(), ls, self.value_text()));
            } else {
                assert(ls.len() == 0);
                assert(out@ =~= line_text(self.name(), ls, self.value_text()));
            }
        }
        out
    }
}

} // verus!
