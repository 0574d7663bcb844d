//! Text escaping for the XML and HTML reports.

use vstd::prelude::*;
use crate::benchmark::ExperimentConfigResult;

verus! {

/// Appends `c` to `text` (`String::push`).
#[verifier::external_body]
fn push_char(text: &mut String, c: char)
    ensures
        final(text)@ == old(text)@.push(c),
{
    text.push(c)
}

/// The markup-safe spelling of one character: `&`, `<`, `>`, `"` and `'`
/// become the entities `&amp;`, `&lt;`, `&gt;`, `&quot;` and `&apos;`; every
/// other character stands for itself.
pub open spec fn escaped_char(c: char) -> Seq<char> {
    if c == '&' {
        "&amp;"@
    } else if c == '<' {
        "&lt;"@
    } else if c == '>' {
        "&gt;"@
    } else if c == '"' {
        "&quot;"@
    } else if c == '\'' {
        "&apos;"@
    } else {
        seq![c]
    }
}

/// `text` with each character replaced by its markup-safe spelling.
pub open spec fn escaped(text: Seq<char>) -> Seq<char>
    decreases text.len(),
{
    if text.len() == 0 {
        Seq::empty()
    } else {
        escaped(text.drop_last()) + escaped_char(text.last())
    }
}

/// Escapes `value` for use as XML text or attribute content.
pub fn escape_xml(value: &str) -> (escaped_value: String)
    ensures
        escaped_value@ == escaped(value@),
{
    broadcast use vstd::string::axiom_spec_iter;

    let mut out = String::new();
    for c in it: value.chars()
        invariant
            it.seq() == value@,
            out@ == escaped(it.seq().take(it.index() as int)),
    {
        let ghost k = it.index() as int;
        let ghost items = it.seq();
        assert(c == items[k]);
        if c == '&' {
            out.append("&amp;");
        } else if c == '<' {
            out.append("&lt;");
        } else if c == '>' {
            out.append("&gt;");
        } else if c == '"' {
            out.append("&quot;");
        } else if c == '\'' {
            out.append("&apos;");
        } else {
            push_char(&mut out, c);
        }
        proof {
            assert(items.take(k + 1).drop_last() =~= items.take(k));
            assert(items.take(k + 1).last() == c);
        }
    }
    assert(value@.take(value@.len() as int) =~= value@);
    out
}

/// Escapes `value` for use as HTML text (the same rules as XML).
pub fn escape_html(value: &str) -> (escaped_value: String)
    ensures
        escaped_value@ == escaped(value@),
{
    escape_xml(value)
}

/// Escaped text holds no `<`, `>`, `"` or `'`: it cannot open or close a tag
/// or end an attribute value.
pub proof fn lemma_escaped_has_no_markup(text: Seq<char>)
    ensures
        forall|i: int|
            0 <= i < escaped(text).len() ==> {
                let c = #[trigger] escaped(text)[i];
                c != '<' && c != '>' && c != '"' && c != '\''
            },
    decreases text.len(),
{
    reveal_strlit("&amp;");
    reveal_strlit("&lt;");
    reveal_strlit("&gt;");
    reveal_strlit("&quot;");
    reveal_strlit("&apos;");
    if text.len() > 0 {
        lemma_escaped_has_no_markup(text.drop_last());
        let head = escaped(text.drop_last());
        let tail = escaped_char(text.last());
        assert forall|i: int| 0 <= i < escaped(text).len() implies {
            let c = #[trigger] escaped(text)[i];
            c != '<' && c != '>' && c != '"' && c != '\''
        } by {
            if i < head.len() {
                assert(escaped(text)[i] == head[i]);
            } else {
                assert(escaped(text)[i] == tail[i - head.len()]);
            }
        }
    }
}

/// The shape passes the filters: each filter that is given equals the
/// shape's subspace count or centroid count.
pub open spec fn passes_filters(
    config: ExperimentConfigResult,
    subspaces: Option<usize>,
    centroids: Option<usize>,
) -> bool {
    &&& (subspaces matches Some(m) ==> m == config.subspaces)
    &&& (centroids matches Some(k) ==> k == config.centroids_per_subspace)
}

/// Index of the first experiment shape that passes the filters.
pub fn find_experiment(
    configs: &[ExperimentConfigResult],
    subspaces: Option<usize>,
    centroids: Option<usize>,
) -> (found: Option<usize>)
    ensures
        match found {
            Some(i) => {
                &&& i < configs@.len()
                &&& passes_filters(configs@[i as int], subspaces, centroids)
                &&& forall|j: int|
                    0 <= j < i ==> !passes_filters(#[trigger] configs@[j], subspaces, centroids)
            },
            None => forall|j: int|
                0 <= j < configs@.len() ==> !passes_filters(
                    #[trigger] configs@[j],
                    subspaces,
                    centroids,
                ),
        },
{
    let mut i: usize = 0;
    while i < configs.len()
        invariant
            i <= configs@.len(),
            forall|j: int|
                0 <= j < i ==> !passes_filters(#[trigger] configs@[j], subspaces, centroids),
        decreases configs@.len() - i,
    {
        let config = configs[i];
        let subspaces_pass = match subspaces {
            Some(m) => m == config.subspaces,
            None => true,
        };
        let centroids_pass = match centroids {
            Some(k) => k == config.centroids_per_subspace,
            None => true,
        };
        if subspaces_pass && centroids_pass {
            return Some(i);
        }
        i += 1;
    }
    None
}

/// The experiment a report shows in detail: the first with 8 subspaces of
/// 256 centroids, else the last one, else none.
pub fn representative_experiment(configs: &[ExperimentConfigResult]) -> (chosen: Option<usize>)
    ensures
        match chosen {
            Some(i) => {
                &&& i < configs@.len()
                &&& if exists|j: int|
                    0 <= j < configs@.len() && (#[trigger] configs@[j]).subspaces == 8
                        && configs@[j].centroids_per_subspace == 256 {
                    &&& configs@[i as int].subspaces == 8
                    &&& configs@[i as int].centroids_per_subspace == 256
                    &&& forall|j: int|
                        0 <= j < i ==> !((#[trigger] configs@[j]).subspaces == 8
                            && configs@[j].centroids_per_subspace == 256)
                } else {
                    i == configs@.len() - 1
                }
            },
            None => configs@.len() == 0,
        },
{
    match find_experiment(configs, Some(8), Some(256)) {
        Some(i) => Some(i),
        None => {
            if configs.len() == 0 {
                None
            } else {
                Some(configs.len() - 1)
            }
        },
    }
}

} // verus!
