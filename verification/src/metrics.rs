use vstd::prelude::*;
use vstd::string::StringSliceAdditionalSpecFns;
use crate::common::{chain_name_text, ChainName, LaneId};
use crate::text::join_text;

verus! {

/// A label of a metric sample: a name and a value.
#[derive(Debug, Clone)]
pub struct MetricLabel {
    label_name: String,
    label_value: String,
}

impl MetricLabel {
    /// The name of the label.
    pub closed spec fn spec_name(&self) -> Seq<char> {
        self.label_name@
    }

    /// The value of the label.
    pub closed spec fn spec_value(&self) -> Seq<char> {
        self.label_value@
    }

    /// The label `label_name` with the value `label_value`.
    pub fn new(label_name: &str, label_value: &str) -> (r: Self)
        ensures
            r.spec_name() == label_name@,
            r.spec_value() == label_value@,
    {
        MetricLabel { label_name: label_name.to_owned(), label_value: label_value.to_owned() }
    }

    /// The label as Prometheus writes it: `name="value"`.
    pub fn to_prometheus_format(&self) -> (r: String)
        ensures
            r@ == self.spec_name() + "=\""@ + self.spec_value() + "\""@,
    {
        let a = join_text(self.label_name.as_str(), "=\"");
        let b = join_text(a.as_str(), self.label_value.as_str());
        let c = join_text(b.as_str(), "\"");
        proof {
            assert(c@ =~= self.spec_name() + "=\""@ + self.spec_value() + "\""@);
        }
        c
    }
}

/// A key whose metrics carry labels.
pub trait LabelKey {
    /// The labels of the key.
    fn to_metric_labels(&self) -> Vec<MetricLabel>;
}

impl LabelKey for ChainName {
    fn to_metric_labels(&self) -> (r: Vec<MetricLabel>)
        ensures
            r@.len() == 1,
            r@[0].spec_name() == "chain"@,
            r@[0].spec_value() == chain_name_text(*self),
    {
        let mut r: Vec<MetricLabel> = Vec::new();
        r.push(MetricLabel::new("chain", self.name()));
        r
    }
}

impl LabelKey for LaneId {
    fn to_metric_labels(&self) -> (r: Vec<MetricLabel>)
        ensures
            r@.len() == 3,
            r@[0].spec_name() == "source_chain"@,
            r@[0].spec_value() == chain_name_text(self.source_chain_name),
            r@[1].spec_name() == "dest_chain"@,
            r@[1].spec_value() == chain_name_text(self.dest_chain_name),
            r@[2].spec_name() == "lane"@,
            r@[2].spec_value() == self.name@,
    {
        let mut r: Vec<MetricLabel> = Vec::new();
        r.push(MetricLabel::new("source_chain", self.source_chain_name.name()));
        r.push(MetricLabel::new("dest_chain", self.dest_chain_name.name()));
        r.push(MetricLabel::new("lane", self.name.as_str()));
        r
    }
}

/// The text of each string.
pub open spec fn texts(v: Seq<String>) -> Seq<Seq<char>> {
    v.map_values(|s: String| s@)
}

/// The lines of the groups, in order, with an empty line between two groups.
pub open spec fn lines_with_spacing(groups: Seq<Seq<Seq<char>>>) -> Seq<Seq<char>>
    decreases groups.len(),
{
    if groups.len() == 0 {
        seq![]
    } else if groups.len() == 1 {
        groups[0]
    } else {
        lines_with_spacing(groups.drop_last()) + seq![Seq::<char>::empty()] + groups.last()
    }
}

/// The lines of the groups of a metrics file, with an empty line between two
/// groups.
pub fn join_prometheus_grouped_lines_with_spacing(grouped_lines: Vec<Vec<String>>) -> (r: Vec<String>)
    ensures
        texts(r@) == lines_with_spacing(grouped_lines@.map_values(|g: Vec<String>| texts(g@))),
{
    let ghost groups = grouped_lines@.map_values(|g: Vec<String>| texts(g@));
    let mut r: Vec<String> = Vec::new();
    let mut idx: usize = 0;
    while idx < grouped_lines.len()
        invariant
            idx <= grouped_lines@.len(),
            groups == grouped_lines@.map_values(|g: Vec<String>| texts(g@)),
            texts(r@) == lines_with_spacing(groups.take(idx as int)),
        decreases grouped_lines@.len() - idx,
    {
        let ghost before = texts(r@);
        if idx > 0 {
            r.push(String::new());
            proof {
                assert(texts(r@) =~= before + seq![Seq::<char>::empty()]);
            }
        }
        let ghost mid = texts(r@);
        let group = &grouped_lines[idx];
        let mut j: usize = 0;
        while j < group.len()
            invariant
                j <= group@.len(),
                texts(r@) == mid + texts(group@).take(j as int),
            decreases group@.len() - j,
        {
            let line = group[j].clone();
            let ghost r0 = texts(r@);
            r.push(line);
            proof {
                assert(texts(r@) =~= r0.push(group@[j as int]@));
                assert(texts(group@).take(j + 1) =~= texts(group@).take(j as int).push(group@[j as int]@));
            }
            j = j + 1;
        }
        proof {
            assert(texts(group@).take(group@.len() as int) =~= texts(group@));
            let g = groups.take(idx + 1);
            assert(g.drop_last() =~= groups.take(idx as int));
            assert(g.last() == texts(group@));
            if idx == 0 {
                assert(groups.take(0) =~= Seq::<Seq<Seq<char>>>::empty());
                assert(texts(r@) =~= texts(group@));
            }
        }
        idx = idx + 1;
    }
    proof {
        assert(groups.take(idx as int) =~= groups);
    }
    r
}

} // verus!
