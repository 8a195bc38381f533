//! Filtering whole sequences of lines, across sources, keeping each matching
//! line verbatim and in order.
use vstd::prelude::*;
use crate::document::{json_top_level, parse_document};
use crate::matcher::{document_matches, record_matches, FilterSpec};

verus! {

/// The character sequences of a list of strings.
pub open spec fn texts(v: Seq<String>) -> Seq<Seq<char>> {
    v.map_values(|s: String| s@)
}

/// The line is well-formed JSON whose record satisfies the filter.
pub open spec fn accepts(spec: FilterSpec, line: Seq<char>) -> bool {
    match json_top_level(line) {
        Some(d) => record_matches(d, spec),
        None => false,
    }
}

/// The accepted lines of `lines`, in their original order.
pub open spec fn filtered(spec: FilterSpec, lines: Seq<Seq<char>>) -> Seq<Seq<char>>
    decreases lines.len(),
{
    if lines.len() == 0 {
        lines
    } else {
        let kept = filtered(spec, lines.drop_last());
        if accepts(spec, lines.last()) {
            kept.push(lines.last())
        } else {
            kept
        }
    }
}

/// The lines of all sources, source after source.
pub open spec fn concat(sources: Seq<Seq<Seq<char>>>) -> Seq<Seq<char>>
    decreases sources.len(),
{
    if sources.len() == 0 {
        Seq::empty()
    } else {
        concat(sources.drop_last()) + sources.last()
    }
}

/// The per-source line lists of `sources`.
pub open spec fn source_texts(sources: Seq<Vec<String>>) -> Seq<Seq<Seq<char>>> {
    sources.map_values(|v: Vec<String>| texts(v@))
}

/// The filtered lines of each source.
pub open spec fn filtered_each(spec: FilterSpec, sources: Seq<Seq<Seq<char>>>) -> Seq<Seq<Seq<char>>> {
    sources.map_values(|s: Seq<Seq<char>>| filtered(spec, s))
}

/// Decides one line: it is parsed, and kept when it is a JSON record that
/// satisfies the filter. Malformed JSON is dropped silently.
pub fn line_matches(line: &str, spec: &FilterSpec) -> (r: bool)
    ensures
        r == accepts(*spec, line@),
{
    match parse_document(line) {
        Some(doc) => document_matches(&doc, spec),
        None => false,
    }
}

/// Filtering distributes over concatenation.
pub proof fn lemma_filtered_append(spec: FilterSpec, a: Seq<Seq<char>>, b: Seq<Seq<char>>)
    ensures
        filtered(spec, a + b) == filtered(spec, a) + filtered(spec, b),
    decreases b.len(),
{
    if b.len() == 0 {
        assert(a + b =~= a);
        assert(filtered(spec, a) + filtered(spec, b) =~= filtered(spec, a));
    } else {
        assert((a + b).drop_last() =~= a + b.drop_last());
        lemma_filtered_append(spec, a, b.drop_last());
        if accepts(spec, b.last()) {
            assert(filtered(spec, a + b) =~= filtered(spec, a) + filtered(spec, b));
        } else {
            assert(filtered(spec, a + b) =~= filtered(spec, a) + filtered(spec, b));
        }
    }
}

/// Every line the filter emits is well-formed JSON: a malformed line never
/// appears in the output, whatever the fields, operator and needle.
pub proof fn lemma_malformed_never_emitted(spec: FilterSpec, lines: Seq<Seq<char>>, line: Seq<char>)
    requires
        json_top_level(line) is None,
    ensures
        !filtered(spec, lines).contains(line),
    decreases lines.len(),
{
    if lines.len() > 0 {
        lemma_malformed_never_emitted(spec, lines.drop_last(), line);
        let kept = filtered(spec, lines.drop_last());
        if accepts(spec, lines.last()) {
            assert(lines.last() != line);
            assert forall|i: int| 0 <= i < kept.len() + 1 implies kept.push(lines.last())[i] != line by {
                if i < kept.len() {
                    assert(kept.push(lines.last())[i] == kept[i]);
                }
            }
        }
    }
}

/// Output order over several sources: the lines kept from all sources are
/// the lines kept from the first source, then those kept from the second,
/// and so on, each in its original order.
pub proof fn lemma_sources_in_order(spec: FilterSpec, sources: Seq<Seq<Seq<char>>>)
    ensures
        filtered(spec, concat(sources)) == concat(filtered_each(spec, sources)),
    decreases sources.len(),
{
    if sources.len() > 0 {
        lemma_sources_in_order(spec, sources.drop_last());
        lemma_filtered_append(spec, concat(sources.drop_last()), sources.last());
        assert(filtered_each(spec, sources).drop_last() =~= filtered_each(spec, sources.drop_last()));
    } else {
        assert(filtered_each(spec, sources) =~= Seq::<Seq<Seq<char>>>::empty());
    }
}

/// Filtering is idempotent: filtering the output again with the same filter
/// gives the same output.
pub proof fn lemma_filter_idempotent(spec: FilterSpec, lines: Seq<Seq<char>>)
    ensures
        filtered(spec, filtered(spec, lines)) == filtered(spec, lines),
    decreases lines.len(),
{
    if lines.len() > 0 {
        lemma_filter_idempotent(spec, lines.drop_last());
        let kept = filtered(spec, lines.drop_last());
        if accepts(spec, lines.last()) {
            assert(kept.push(lines.last()).drop_last() =~= kept);
        }
    }
}

/// Appends to `out` each line of `lines` that the filter accepts, in order.
pub fn filter_lines(spec: &FilterSpec, lines: &Vec<String>, out: &mut Vec<String>)
    ensures
        texts(final(out)@) == texts(old(out)@) + filtered(*spec, texts(lines@)),
{
    let ghost start = texts(out@);
    let mut i: usize = 0;
    while i < lines.len()
        invariant
            i <= lines@.len(),
            texts(out@) == start + filtered(*spec, texts(lines@.take(i as int))),
        decreases lines@.len() - i,
    {
        proof {
            assert(texts(lines@.take(i + 1)).drop_last() =~= texts(lines@.take(i as int)));
            assert(texts(lines@.take(i + 1)).last() == lines@[i as int]@);
        }
        if line_matches(lines[i].as_str(), spec) {
            let ghost prev = out@;
            let line = lines[i].clone();
            out.push(line);
            assert(texts(out@) =~= texts(prev).push(lines@[i as int]@));
            assert(texts(out@) =~= start + filtered(*spec, texts(lines@.take(i + 1))));
        } else {
            assert(texts(out@) =~= start + filtered(*spec, texts(lines@.take(i + 1))));
        }
        i += 1;
    }
    assert(lines@.take(lines@.len() as int) =~= lines@);
}

/// Filters the sources one after the other: the result holds the accepted
/// lines of the first source, then those of the second, and so on.
pub fn filter_sources(spec: &FilterSpec, sources: &Vec<Vec<String>>) -> (r: Vec<String>)
    ensures
        texts(r@) == filtered(*spec, concat(source_texts(sources@))),
{
    let mut out: Vec<String> = Vec::new();
    let mut i: usize = 0;
    assert(texts(out@) =~= filtered(*spec, concat(source_texts(sources@.take(0)))));
    while i < sources.len()
        invariant
            i <= sources@.len(),
            texts(out@) == filtered(*spec, concat(source_texts(sources@.take(i as int)))),
        decreases sources@.len() - i,
    {
        let ghost before = concat(source_texts(sources@.take(i as int)));
        proof {
            let s = source_texts(sources@.take(i + 1));
            assert(s.drop_last() =~= source_texts(sources@.take(i as int)));
            assert(s.last() == texts(sources@[i as int]@));
            lemma_filtered_append(*spec, before, texts(sources@[i as int]@));
        }
        filter_lines(spec, &sources[i], &mut out);
        i += 1;
    }
    assert(sources@.take(sources@.len() as int) =~= sources@);
    out
}

} // verus!
