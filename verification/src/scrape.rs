//! Metrics written as scrape text: one line per metric, the name, the labels
//! in braces, a space and the value.

use vstd::prelude::*;
use crate::projection::{LabeledMetric, MetricValue};
use crate::string_map::StringMap;
use crate::text::{decimal, decimal_nat, push_decimal, push_decimal_nat};

verus! {

/// A character of a label value as it is written: `"` and `\` behind a `\`.
pub open spec fn escaped_char(c: char) -> Seq<char> {
    if c == '"' {
        seq!['\\', '"']
    } else if c == '\\' {
        seq!['\\', '\\']
    } else {
        seq![c]
    }
}

/// A label value as it is written between its quotes.
pub open spec fn escaped(s: Seq<char>) -> Seq<char>
    decreases s.len(),
{
    if s.len() == 0 {
        Seq::empty()
    } else {
        escaped(s.drop_last()) + escaped_char(s.last())
    }
}

/// One label: the key, `=`, and the value in quotes.
pub open spec fn label_text(p: (Seq<char>, Seq<char>)) -> Seq<char> {
    p.0 + seq!['=', '"'] + escaped(p.1) + seq!['"']
}

/// Labels in order, with a comma between one and the next.
pub open spec fn labels_text(ps: Seq<(Seq<char>, Seq<char>)>) -> Seq<char>
    decreases ps.len(),
{
    if ps.len() == 0 {
        Seq::empty()
    } else if ps.len() == 1 {
        label_text(ps[0])
    } else {
        labels_text(ps.drop_last()) + seq![','] + label_text(ps.last())
    }
}

/// A value in decimal.
pub open spec fn value_text(v: MetricValue) -> Seq<char> {
    match v {
        MetricValue::Int64(x) => decimal(x as int),
        MetricValue::Uint64(x) => decimal_nat(x as nat),
    }
}

/// The labels in braces, or nothing where there is no label.
pub open spec fn braced(ps: Seq<(Seq<char>, Seq<char>)>) -> Seq<char> {
    if ps.len() == 0 {
        Seq::empty()
    } else {
        seq!['{'] + labels_text(ps) + seq!['}']
    }
}

/// The line of one metric: its name, its labels in the order in which they
/// were set, a space, its value, and the end of the line.
pub open spec fn metric_line(m: LabeledMetric) -> Seq<char> {
    m.name@ + braced(m.labels.pairs()) + seq![' '] + value_text(m.value) + seq!['\n']
}

/// The lines of a sequence of metrics, in order.
pub open spec fn scrape_text(ms: Seq<LabeledMetric>) -> Seq<char>
    decreases ms.len(),
{
    if ms.len() == 0 {
        Seq::empty()
    } else {
        scrape_text(ms.drop_last()) + metric_line(ms.last())
    }
}

/// Appends a label value as it is written between its quotes.
fn push_escaped(out: &mut String, value: &String)
    ensures
        final(out)@ == old(out)@ + escaped(value@),
{
    let ghost before = out@;
    let text = value.as_str();
    let n = text.unicode_len();
    let mut i: usize = 0;
    proof {
        reveal_strlit("\\");
        assert(value@.subrange(0, 0) =~= Seq::<char>::empty());
        assert(out@ =~= before + escaped(value@.subrange(0, 0)));
    }
    while i < n
        invariant
            text@ == value@,
            n == value@.len(),
            i <= n,
            "\\"@ == seq!['\\'],
            out@ == before + escaped(value@.subrange(0, i as int)),
        decreases n - i,
    {
        let c = text.get_char(i);
        let ghost sofar = out@;
        proof {
            assert(value@.subrange(0, i + 1).drop_last() =~= value@.subrange(0, i as int));
            assert(value@.subrange(0, i + 1).last() == c);
        }
        if c == '"' || c == '\\' {
            out.append("\\");
        }
        let one = text.substring_char(i, i + 1);
        proof {
            assert(one@ =~= seq![c]);
        }
        out.append(one);
        proof {
            assert(out@ =~= sofar + escaped_char(c));
            assert(out@ =~= before + escaped(value@.subrange(0, i + 1)));
        }
        i += 1;
    }
    proof {
        assert(value@.subrange(0, n as int) =~= value@);
    }
}

/// Appends the labels in braces.
fn push_labels(out: &mut String, labels: &StringMap<String>)
    ensures
        final(out)@ == old(out)@ + braced(labels.pairs()),
{
    let ghost before = out@;
    let ghost ps = labels.pairs();
    let n = labels.len();
    if n == 0 {
        proof {
            assert(out@ =~= before + braced(ps));
        }
        return ;
    }
    proof {
        reveal_strlit("{");
        reveal_strlit("}");
        reveal_strlit(",");
        reveal_strlit("=\"");
        reveal_strlit("\"");
    }
    out.append("{");
    let mut i: usize = 0;
    proof {
        assert(ps.subrange(0, 0) =~= Seq::<(Seq<char>, Seq<char>)>::empty());
        assert(out@ =~= before + seq!['{'] + labels_text(ps.subrange(0, 0)));
    }
    while i < n
        invariant
            i <= n,
            n == ps.len(),
            ps == labels.pairs(),
            ","@ == seq![','],
            "=\""@ == seq!['=', '"'],
            "\""@ == seq!['"'],
            out@ == before + seq!['{'] + labels_text(ps.subrange(0, i as int)),
        decreases n - i,
    {
        let ghost sofar = out@;
        proof {
            assert(ps.subrange(0, i + 1).drop_last() =~= ps.subrange(0, i as int));
            assert(ps.subrange(0, i + 1).last() == ps[i as int]);
            assert(ps.subrange(0, i + 1)[0] == ps[0]);
        }
        if i > 0 {
            out.append(",");
        }
        out.append(labels.key_at(i).as_str());
        out.append("=\"");
        push_escaped(out, labels.value_at(i));
        out.append("\"");
        proof {
            if i > 0 {
                assert(out@ =~= sofar + seq![','] + label_text(ps[i as int]));
            } else {
                assert(out@ =~= sofar + label_text(ps[i as int]));
            }
            assert(out@ =~= before + seq!['{'] + labels_text(ps.subrange(0, i + 1)));
        }
        i += 1;
    }
    out.append("}");
    proof {
        assert(ps.subrange(0, n as int) =~= ps);
        assert(out@ =~= before + braced(ps));
    }
}

/// Appends the line of one metric.
pub fn push_metric_line(out: &mut String, m: &LabeledMetric)
    ensures
        final(out)@ == old(out)@ + metric_line(*m),
{
    let ghost before = out@;
    out.append(m.name.as_str());
    push_labels(out, &m.labels);
    out.append(" ");
    match m.value {
        MetricValue::Int64(x) => push_decimal(out, x),
        MetricValue::Uint64(x) => push_decimal_nat(out, x),
    }
    out.append("\n");
    proof {
        reveal_strlit(" ");
        reveal_strlit("\n");
        assert(out@ =~= before + metric_line(*m));
    }
}

/// Writes metrics as scrape text.
pub fn render(metrics: &Vec<LabeledMetric>) -> (out: String)
    ensures
        out@ == scrape_text(metrics@),
{
    let mut out = String::new();
    let mut k: usize = 0;
    proof {
        assert(metrics@.subrange(0, 0) =~= Seq::<LabeledMetric>::empty());
    }
    while k < metrics.len()
        invariant
            k <= metrics.len(),
            out@ == scrape_text(metrics@.subrange(0, k as int)),
        decreases metrics.len() - k,
    {
        proof {
            assert(metrics@.subrange(0, k + 1).drop_last() =~= metrics@.subrange(0, k as int));
            assert(metrics@.subrange(0, k + 1).last() == metrics@[k as int]);
        }
        push_metric_line(&mut out, &metrics[k]);
        k += 1;
    }
    proof {
        assert(metrics@.subrange(0, k as int) =~= metrics@);
    }
    out
}

} // verus!
