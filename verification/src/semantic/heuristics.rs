//! Plain heuristics on the wording of a text: which field of knowledge a
//! name belongs to, and which lines define or state something.

use vstd::prelude::*;
use crate::text::chars_of;
use crate::text::contains_spec;
use crate::text::contains_str;
use crate::text::find_from;
use crate::text::lines;
use crate::text::lines_spec;
use crate::text::lowercase;
use crate::text::lowercase_spec;
use crate::text::occurs_at;
use crate::text::slice_chars;
use crate::text::string_of;
use crate::text::trim;
use crate::text::trim_spec;

verus! {

/// The field of knowledge that a lower-case name belongs to, by the first
/// of the known stems that it holds.
pub open spec fn field_of_spec(name: Seq<char>) -> Seq<char> {
    if contains_spec(name, "квант"@) || contains_spec(name, "физик"@) {
        "физика"@
    } else if contains_spec(name, "математик"@) || contains_spec(name, "число"@) {
        "математика"@
    } else if contains_spec(name, "биолог"@) || contains_spec(name, "клетк"@) {
        "биология"@
    } else if contains_spec(name, "хим"@) {
        "химия"@
    } else if contains_spec(name, "программ"@) || contains_spec(name, "код"@) {
        "программирование"@
    } else if contains_spec(name, "нейросет"@) || contains_spec(name, "нейрон"@) || contains_spec(
        name,
        "ai"@,
    ) {
        "искусственный интеллект"@
    } else if contains_spec(name, "человек"@) || contains_spec(name, "личност"@) {
        "психология"@
    } else if contains_spec(name, "истор"@) {
        "история"@
    } else {
        "общие"@
    }
}

/// The field of knowledge that a lower-case name belongs to.
pub fn field_of(name: &[char]) -> (field: &'static str)
    ensures
        field@ == field_of_spec(name@),
{
    if contains_str(name, "квант") || contains_str(name, "физик") {
        "физика"
    } else if contains_str(name, "математик") || contains_str(name, "число") {
        "математика"
    } else if contains_str(name, "биолог") || contains_str(name, "клетк") {
        "биология"
    } else if contains_str(name, "хим") {
        "химия"
    } else if contains_str(name, "программ") || contains_str(name, "код") {
        "программирование"
    } else if contains_str(name, "нейросет") || contains_str(name, "нейрон") || contains_str(
        name,
        "ai",
    ) {
        "искусственный интеллект"
    } else if contains_str(name, "человек") || contains_str(name, "личност") {
        "психология"
    } else if contains_str(name, "истор") {
        "история"
    } else {
        "общие"
    }
}

/// The field of knowledge that a name belongs to, whatever its case.
pub fn categorize_concept(concept_name: &str) -> (field: String)
    ensures
        field@ == field_of_spec(lowercase_spec(concept_name@)),
{
    let lower = lowercase(chars_of(concept_name).as_slice());
    crate::text::owned(field_of(lower.as_slice()))
}

/// `pattern` stands in `line` at `at` and nowhere else, seen from the left
/// and without overlap.
pub open spec fn stands_once_spec(line: Seq<char>, pattern: Seq<char>, at: int) -> bool {
    &&& occurs_at(line, pattern, at)
    &&& forall|k: int| 0 <= k < at ==> !occurs_at(line, pattern, k)
    &&& forall|k: int| at + pattern.len() <= k ==> !occurs_at(line, pattern, k)
}

/// Reads a line as a definition: what stands before the pattern is defined
/// as what stands behind it, both trimmed. A line in which the pattern does
/// not stand exactly once defines nothing; nor does an empty pattern.
pub fn parse_definition(line: &[char], pattern: &[char]) -> (definition: Option<(String, String)>)
    ensures
        match definition {
            Some(parts) => exists|at: int|
                #![trigger occurs_at(line@, pattern@, at)]
                pattern@.len() > 0 && stands_once_spec(line@, pattern@, at) && parts.0@ == trim_spec(
                    line@.take(at),
                ) && parts.1@ == trim_spec(line@.skip(at + pattern@.len())),
            None => pattern@.len() == 0 || forall|at: int|
                !#[trigger] stands_once_spec(line@, pattern@, at),
        },
{
    if pattern.len() == 0 {
        return None;
    }
    let at = match find_from(line, pattern, 0) {
        Some(at) => at,
        None => {
            return None;
        },
    };
    let total = line.len();
    assert(at + pattern@.len() <= total);
    match find_from(line, pattern, at + pattern.len()) {
        Some(again) => {
            proof {
                assert forall|k: int| !#[trigger] stands_once_spec(line@, pattern@, k) by {
                    if stands_once_spec(line@, pattern@, k) {
                        // the first occurrence is the only candidate, and another follows it
                        if k < at {
                            assert(!occurs_at(line@, pattern@, k));
                        } else if k > at {
                            assert(occurs_at(line@, pattern@, at as int));
                        } else {
                            assert(occurs_at(line@, pattern@, again as int));
                        }
                    }
                }
            }
            None
        },
        None => {
            let head = slice_chars(line, 0, at);
            let tail = slice_chars(line, at + pattern.len(), line.len());
            proof {
                assert(head@ =~= line@.take(at as int));
                assert(tail@ =~= line@.skip(at + pattern@.len()));
                assert(stands_once_spec(line@, pattern@, at as int));
            }
            Some(
                (
                    string_of(trim(head.as_slice()).as_slice()),
                    string_of(trim(tail.as_slice()).as_slice()),
                ),
            )
        },
    }
}

/// The phrases that mark a line as stating a fact.
pub open spec fn states_fact_spec(lower: Seq<char>) -> bool {
    ||| contains_spec(lower, "известно что"@)
    ||| contains_spec(lower, "согласно"@)
    ||| contains_spec(lower, "как правило"@)
    ||| contains_spec(lower, "важно отметить"@)
}

/// Whether a line states a fact: it is at least ten characters long and
/// holds one of the marking phrases, whatever the case.
pub open spec fn is_fact_spec(line: Seq<char>) -> bool {
    line.len() >= 10 && states_fact_spec(lowercase_spec(line))
}

/// The lines of `lines` that state a fact, trimmed.
pub open spec fn facts_of_spec(lines: Seq<Seq<char>>) -> Seq<Seq<char>>
    decreases lines.len(),
{
    if lines.len() == 0 {
        Seq::empty()
    } else {
        let earlier = facts_of_spec(lines.drop_last());
        if is_fact_spec(lines.last()) {
            earlier.push(trim_spec(lines.last()))
        } else {
            earlier
        }
    }
}

/// The lines of a text that state a fact, trimmed.
pub fn extract_facts(text: &str) -> (facts: Vec<String>)
    ensures
        crate::text::string_views(facts@) == facts_of_spec(lines_spec(text@)),
{
    let chars = chars_of(text);
    let all = lines(chars.as_slice());
    let ghost views = lines_spec(text@);
    let mut facts: Vec<String> = Vec::new();
    let mut i: usize = 0;
    assert(crate::text::string_views(facts@) =~= facts_of_spec(views.take(0)));
    while i < all.len()
        invariant
            i <= all.len(),
            views == lines_spec(text@),
            all@.len() == views.len(),
            forall|j: int| 0 <= j < all@.len() ==> (#[trigger] all@[j])@ == views[j],
            crate::text::string_views(facts@) == facts_of_spec(views.take(i as int)),
        decreases all.len() - i,
    {
        proof {
            assert(views.take(i + 1).drop_last() =~= views.take(i as int));
            assert(views.take(i + 1).last() == all@[i as int]@);
        }
        let line = &all[i];
        if line.len() >= 10 {
            let lower = lowercase(line.as_slice());
            if contains_str(lower.as_slice(), "известно что") || contains_str(
                lower.as_slice(),
                "согласно",
            ) || contains_str(lower.as_slice(), "как правило") || contains_str(
                lower.as_slice(),
                "важно отметить",
            ) {
                let ghost before = crate::text::string_views(facts@);
                let fact = string_of(trim(line.as_slice()).as_slice());
                facts.push(fact);
                proof {
                    assert(crate::text::string_views(facts@) =~= before.push(trim_spec(line@)));
                }
            }
        }
        i = i + 1;
    }
    proof {
        assert(views.take(i as int) =~= views);
    }
    facts
}

} // verus!
