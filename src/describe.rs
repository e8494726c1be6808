use vstd::prelude::*;

use crate::data_entry::{lemma_map_value_decreases, lemma_array_item_decreases, lemma_view_entries, lemma_view_items, DataEntry, Term};
use crate::evaluation_error::{EvaluationError, TraceInfo};
use crate::reference::{decimal_text, push_decimal, Reference};

verus! {

/// A one-line writing of a term: strings in double quotes, arrays in
/// brackets, maps in braces with `key: value` entries.
pub open spec fn term_text(t: Term) -> Seq<char>
    decreases t,
{
    match t {
        Term::Text(s) => seq!['"'] + s + seq!['"'],
        Term::List(l) => seq!['['] + items_text(l) + seq![']'],
        Term::Dict(m) => seq!['{'] + entries_text(m) + seq!['}'],
    }
}

pub open spec fn separator(first: bool) -> Seq<char> {
    if first {
        Seq::empty()
    } else {
        seq![',', ' ']
    }
}

pub open spec fn items_text(l: Seq<Term>) -> Seq<char>
    decreases l,
{
    if l.len() == 0 {
        Seq::empty()
    } else {
        items_text(l.drop_last()) + separator(l.len() == 1) + term_text(l.last())
    }
}

pub open spec fn entries_text(m: Seq<(Reference, Term)>) -> Seq<char>
    decreases m,
{
    if m.len() == 0 {
        Seq::empty()
    } else {
        entries_text(m.drop_last()) + separator(m.len() == 1) + m.last().0.spec_text() + seq![
            ':',
            ' ',
        ] + term_text(m.last().1)
    }
}

/// The writing of one step of an error's path.
pub open spec fn frame_text(f: TraceInfo) -> Seq<char> {
    match f {
        TraceInfo::Reference(id) => id.spec_text(),
        TraceInfo::InsideMap(id) => seq!['-', '>'] + id.spec_text(),
        TraceInfo::InsideArray(pos) => seq!['['] + decimal_text(pos as nat) + seq![']'],
        TraceInfo::InsideInput(name) => "input "@ + seq!['"'] + name@ + seq!['"', ' '],
        TraceInfo::ProcessingResult(d) => "processing result "@ + term_text(d@),
    }
}

pub open spec fn starts_section(f: TraceInfo) -> bool {
    f is Reference || f is InsideInput
}

/// The writing of `fs[n..]` in reverse order, that is from the outermost
/// frame to `fs[n]`, and whether it ends with a section break.
pub open spec fn frames_text_from(fs: Seq<TraceInfo>, n: int) -> (Seq<char>, bool)
    decreases fs.len() - n,
{
    if n < 0 || n >= fs.len() {
        (Seq::empty(), false)
    } else {
        let (prev, jumped) = frames_text_from(fs, n + 1);
        let f = fs[n];
        let before = if starts_section(f) && !jumped {
            seq!['\n']
        } else {
            Seq::empty()
        };
        let after = if f is ProcessingResult {
            seq!['\n']
        } else {
            Seq::empty()
        };
        (prev + before + frame_text(f) + after, f is ProcessingResult)
    }
}

fn lit(s: &mut String, t: &str)
    ensures
        final(s)@ == old(s)@ + t@,
{
    s.append(t);
}

fn push_quote(s: &mut String)
    ensures
        final(s)@ == old(s)@ + seq!['"'],
{
    proof {
        reveal_strlit("\"");
    }
    s.append("\"");
}

fn push_separator(s: &mut String, first: bool)
    ensures
        final(s)@ == old(s)@ + separator(first),
{
    if !first {
        proof {
            reveal_strlit(", ");
        }
        s.append(", ");
    } else {
        assert(old(s)@ + separator(first) == old(s)@);
    }
}

/// Appends the writing of `t`.
pub fn write_term(s: &mut String, t: &DataEntry)
    ensures
        final(s)@ == old(s)@ + term_text(t@),
    decreases t,
{
    match t {
        DataEntry::String(v) => {
            push_quote(s);
            s.append(v.as_str());
            push_quote(s);
        },
        DataEntry::Array(a) => {
            proof {
                lemma_view_items(a@);
                reveal_strlit("[");
                reveal_strlit("]");
            }
            let ghost start = s@;
            let ghost l = t@->List_0;
            s.append("[");
            let mut i: usize = 0;
            while i < a.len()
                invariant
                    *t == DataEntry::Array(*a),
                    l == t@->List_0,
                    l.len() == a@.len(),
                    forall|j: int| 0 <= j < l.len() ==> #[trigger] l[j] == a@[j]@,
                    i <= a@.len(),
                    s@ == start + seq!['['] + items_text(l.subrange(0, i as int)),
                decreases a@.len() - i,
            {
                proof {
                    lemma_array_item_decreases(*t, i as int);
                    assert(l.subrange(0, i + 1).drop_last() == l.subrange(0, i as int));
                    assert(l.subrange(0, i + 1).last() == l[i as int]);
                }
                push_separator(s, i == 0);
                write_term(s, &a[i]);
                i = i + 1;
            }
            s.append("]");
            proof {
                assert(l.subrange(0, i as int) == l);
            }
        },
        DataEntry::IdMap(map) => {
            proof {
                lemma_view_entries(map.spec_entries());
                reveal_strlit("{");
                reveal_strlit("}");
                reveal_strlit(": ");
            }
            let ghost start = s@;
            let ghost m = map@;
            s.append("{");
            let mut i: usize = 0;
            while i < map.len()
                invariant
                    *t == DataEntry::IdMap(*map),
                    m == map@,
                    m.len() == map.spec_entries().len(),
                    forall|j: int|
                        0 <= j < m.len() ==> #[trigger] m[j] == (
                            map.spec_entries()[j].0,
                            map.spec_entries()[j].1@,
                        ),
                    i <= m.len(),
                    s@ == start + seq!['{'] + entries_text(m.subrange(0, i as int)),
                decreases m.len() - i,
            {
                proof {
                    lemma_map_value_decreases(*t, i as int);
                    assert(m.subrange(0, i + 1).drop_last() == m.subrange(0, i as int));
                    assert(m.subrange(0, i + 1).last() == m[i as int]);
                }
                let ghost s0 = s@;
                push_separator(s, i == 0);
                let key = map.key_at(i).to_zid();
                s.append(key.as_str());
                s.append(": ");
                write_term(s, map.value_at(i));
                proof {
                    reveal_strlit(": ");
                    assert(": "@ == seq![':', ' ']);
                    let prefix = m.subrange(0, i + 1);
                    assert(entries_text(prefix) == entries_text(m.subrange(0, i as int)) + separator(
                        prefix.len() == 1,
                    ) + m[i as int].0.spec_text() + seq![':', ' '] + term_text(m[i as int].1));
                    assert(s@ == s0 + separator(i == 0) + m[i as int].0.spec_text() + seq![':', ' ']
                        + term_text(m[i as int].1));
                    assert(s@ =~= start + seq!['{'] + entries_text(prefix));
                }
                i = i + 1;
            }
            s.append("}");
            proof {
                assert(m.subrange(0, i as int) == m);
            }
        },
    }
}

impl TraceInfo {
    /// The writing of this step of an error's path.
    pub fn describe(&self) -> (r: String)
        ensures
            r@ == frame_text(*self),
    {
        let mut s = String::new();
        match self {
            TraceInfo::Reference(id) => {
                s.append(id.to_zid().as_str());
            },
            TraceInfo::InsideMap(id) => {
                proof {
                    reveal_strlit("->");
                }
                s.append("->");
                s.append(id.to_zid().as_str());
            },
            TraceInfo::InsideArray(pos) => {
                proof {
                    reveal_strlit("[");
                    reveal_strlit("]");
                }
                s.append("[");
                push_decimal(&mut s, *pos as u64);
                s.append("]");
            },
            TraceInfo::InsideInput(name) => {
                lit(&mut s, "input ");
                push_quote(&mut s);
                s.append(name.as_str());
                push_quote(&mut s);
                proof {
                    reveal_strlit(" ");
                }
                s.append(" ");
            },
            TraceInfo::ProcessingResult(data) => {
                lit(&mut s, "processing result ");
                write_term(&mut s, data);
            },
        }
        s
    }
}

impl EvaluationError {
    /// The path of the error, outermost step first, with a line break
    /// around each section.
    pub fn describe(&self) -> (r: String)
        ensures
            r@ == frames_text_from(self.frames@, 0).0,
    {
        let mut s = String::new();
        let mut has_jumped_line = false;
        let mut i = self.frames.len();
        proof {
            assert(frames_text_from(self.frames@, i as int) == (Seq::<char>::empty(), false));
        }
        while i > 0
            invariant
                i <= self.frames@.len(),
                (s@, has_jumped_line) == frames_text_from(self.frames@, i as int),
            decreases i,
        {
            i = i - 1;
            let frame = &self.frames[i];
            if frame.should_start_new_section_before() && !has_jumped_line {
                proof {
                    reveal_strlit("\n");
                }
                s.append("\n");
            }
            let text = frame.describe();
            s.append(text.as_str());
            has_jumped_line = false;
            if frame.should_start_new_section_after() {
                proof {
                    reveal_strlit("\n");
                }
                s.append("\n");
                has_jumped_line = true;
            }
        }
        s
    }
}

} // verus!
