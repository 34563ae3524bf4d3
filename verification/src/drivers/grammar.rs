//! A small matcher for line grammars made of fixed literals and runs of
//! character classes. A pattern is unambiguous when every run is followed by
//! a literal that starts outside the run's class, so a text has at most one
//! division into parts.

use vstd::prelude::*;

verus! {

/// A character class of the header grammar. All classes are ASCII.
#[derive(Clone, Copy, Debug)]
pub enum Class {
    /// Letters, digits and the underscore.
    Word,
    /// Blank, tab, line feed, carriage return, vertical tab, form feed.
    Space,
    /// Word characters and the hyphen.
    Region,
    /// Word characters, the hyphen and the semicolon.
    HeaderList,
    /// Digits and the letters `a` to `f`.
    Hex,
}

pub open spec fn is_word(c: char) -> bool {
    ('a' <= c && c <= 'z') || ('A' <= c && c <= 'Z') || ('0' <= c && c <= '9') || c == '_'
}

/// Whether `class` contains `c`.
pub open spec fn admits(class: Class, c: char) -> bool {
    match class {
        Class::Word => is_word(c),
        Class::Space => c == ' ' || c == '\t' || c == '\n' || c == '\r' || c == '\u{b}' || c
            == '\u{c}',
        Class::Region => is_word(c) || c == '-',
        Class::HeaderList => is_word(c) || c == '-' || c == ';',
        Class::Hex => ('0' <= c && c <= '9') || ('a' <= c && c <= 'f'),
    }
}

/// One element of a pattern, as a mathematical value.
pub enum Rule {
    /// Exactly this text.
    Literal(Seq<char>),
    /// Exactly one character of the class.
    One(Class),
    /// Zero or more characters of the class.
    Any(Class),
    /// One or more characters of the class.
    Run(Class),
}

/// One element of a pattern, as held at run time.
pub enum Piece {
    Literal(Vec<char>),
    One(Class),
    Any(Class),
    Run(Class),
}

impl View for Piece {
    type V = Rule;

    open spec fn view(&self) -> Rule {
        match *self {
            Piece::Literal(text) => Rule::Literal(text@),
            Piece::One(class) => Rule::One(class),
            Piece::Any(class) => Rule::Any(class),
            Piece::Run(class) => Rule::Run(class),
        }
    }
}

/// The rules that a run-time pattern stands for.
pub open spec fn rules(pattern: Seq<Piece>) -> Seq<Rule> {
    pattern.map_values(|piece: Piece| piece@)
}

pub open spec fn all_admitted(class: Class, part: Seq<char>) -> bool {
    forall|i: int| 0 <= i < part.len() ==> admits(class, #[trigger] part[i])
}

/// Whether `part` is a text that `rule` allows.
pub open spec fn conforms(rule: Rule, part: Seq<char>) -> bool {
    match rule {
        Rule::Literal(text) => part == text,
        Rule::One(class) => part.len() == 1 && admits(class, part[0]),
        Rule::Any(class) => all_admitted(class, part),
        Rule::Run(class) => part.len() > 0 && all_admitted(class, part),
    }
}

/// The parts laid end to end.
pub open spec fn joined(parts: Seq<Seq<char>>) -> Seq<char>
    decreases parts.len(),
{
    if parts.len() == 0 {
        Seq::empty()
    } else {
        joined(parts.drop_last()) + parts.last()
    }
}

/// Whether `parts` divides `text` as `pattern` demands: one part per rule,
/// each conforming, and together spelling the whole text.
pub open spec fn is_match(pattern: Seq<Rule>, parts: Seq<Seq<char>>, text: Seq<char>) -> bool {
    &&& parts.len() == pattern.len()
    &&& forall|k: int| 0 <= k < pattern.len() ==> conforms(#[trigger] pattern[k], parts[k])
    &&& joined(parts) == text
}

/// Whether a class may be followed by `next` without doubt about where the
/// run of the class ends.
pub open spec fn stops_before(class: Class, next: Rule) -> bool {
    match next {
        Rule::Literal(text) => text.len() > 0 && !admits(class, text[0]),
        _ => false,
    }
}

/// Every run in the pattern is the last rule or is followed by a literal
/// that starts outside the run's class.
pub open spec fn unambiguous(pattern: Seq<Rule>) -> bool {
    forall|k: int|
        0 <= k && k + 1 < pattern.len() ==> match #[trigger] pattern[k] {
            Rule::Any(class) => stops_before(class, pattern[k + 1]),
            Rule::Run(class) => stops_before(class, pattern[k + 1]),
            _ => true,
        }
}

/// Where part `k` begins in the joined text.
pub open spec fn offset(parts: Seq<Seq<char>>, k: int) -> int {
    joined(parts.take(k)).len() as int
}

/// Where part `k` begins when the parts end at `cuts`.
pub open spec fn start(cuts: Seq<usize>, k: int) -> int {
    if k <= 0 {
        0
    } else {
        cuts[k - 1] as int
    }
}

/// The cuts do not go backwards and stay within `len`.
pub open spec fn is_cutting(cuts: Seq<usize>, len: int) -> bool {
    forall|k: int| 0 <= k < cuts.len() ==> start(cuts, k) <= #[trigger] cuts[k] <= len
}

/// The parts of `text` that end at `cuts`.
pub open spec fn parts_at(text: Seq<char>, cuts: Seq<usize>) -> Seq<Seq<char>> {
    Seq::new(cuts.len(), |k: int| text.subrange(start(cuts, k), cuts[k] as int))
}

pub proof fn lemma_joined_step(parts: Seq<Seq<char>>, k: int)
    requires
        0 <= k < parts.len(),
    ensures
        joined(parts.take(k + 1)) == joined(parts.take(k)) + parts[k],
        offset(parts, k + 1) == offset(parts, k) + parts[k].len(),
{
    let longer = parts.take(k + 1);
    assert(longer.drop_last() =~= parts.take(k));
    assert(longer.last() == parts[k]);
}

pub proof fn lemma_joined_prefix(parts: Seq<Seq<char>>, k: int)
    requires
        0 <= k <= parts.len(),
    ensures
        offset(parts, k) <= joined(parts).len(),
        joined(parts.take(k)) == joined(parts).take(offset(parts, k)),
    decreases parts.len() - k,
{
    if k == parts.len() {
        assert(parts.take(k) =~= parts);
        assert(joined(parts).take(offset(parts, k)) =~= joined(parts));
    } else {
        lemma_joined_prefix(parts, k + 1);
        lemma_joined_step(parts, k);
        let whole = joined(parts);
        let longer = joined(parts.take(k + 1));
        assert(longer.take(offset(parts, k)) =~= joined(parts.take(k)));
        assert(whole.take(offset(parts, k + 1)).take(offset(parts, k)) =~= whole.take(
            offset(parts, k),
        ));
    }
}

/// Part `k` lies in the joined text at its offset.
pub proof fn lemma_part_position(parts: Seq<Seq<char>>, k: int)
    requires
        0 <= k < parts.len(),
    ensures
        offset(parts, k + 1) == offset(parts, k) + parts[k].len(),
        offset(parts, k + 1) <= joined(parts).len(),
        joined(parts).subrange(offset(parts, k), offset(parts, k + 1)) == parts[k],
{
    lemma_joined_step(parts, k);
    lemma_joined_prefix(parts, k + 1);
    let whole = joined(parts);
    let longer = joined(parts.take(k + 1));
    assert(longer.subrange(offset(parts, k), offset(parts, k + 1)) =~= parts[k]);
    assert(whole.take(offset(parts, k + 1)).subrange(offset(parts, k), offset(parts, k + 1))
        =~= whole.subrange(offset(parts, k), offset(parts, k + 1)));
}

/// Cutting a text and joining the parts gives back the text up to the last
/// cut.
pub proof fn lemma_cut_and_join(text: Seq<char>, cuts: Seq<usize>)
    requires
        is_cutting(cuts, text.len() as int),
    ensures
        joined(parts_at(text, cuts)) == text.take(start(cuts, cuts.len() as int)),
    decreases cuts.len(),
{
    let parts = parts_at(text, cuts);
    if cuts.len() == 0 {
        assert(joined(parts) =~= text.take(0));
    } else {
        let fewer = cuts.drop_last();
        assert forall|k: int| 0 <= k < fewer.len() implies start(fewer, k) <= #[trigger] fewer[k]
            <= text.len() by {
            assert(fewer[k] == cuts[k]);
            assert(start(fewer, k) == start(cuts, k));
        }
        lemma_cut_and_join(text, fewer);
        assert(parts.drop_last() =~= parts_at(text, fewer)) by {
            assert forall|k: int| 0 <= k < fewer.len() implies parts.drop_last()[k] == parts_at(
                text,
                fewer,
            )[k] by {
                assert(start(fewer, k) == start(cuts, k));
            }
        }
        let last = cuts.len() - 1;
        assert(start(fewer, fewer.len() as int) == start(cuts, last));
        assert(start(cuts, last) <= cuts[last] <= text.len());
        assert(text.take(start(cuts, last)) + text.subrange(start(cuts, last), cuts[last] as int)
            =~= text.take(cuts[last] as int));
    }
}

/// The parts begin where the cuts say, for every part up to the last cut.
pub open spec fn follows(parts: Seq<Seq<char>>, cuts: Seq<usize>) -> bool {
    forall|j: int| 0 <= j <= cuts.len() ==> #[trigger] offset(parts, j) == start(cuts, j)
}

/// In a match of an unambiguous pattern, a run ends exactly where the
/// longest stretch of its class ends.
pub proof fn lemma_run_extent(
    pattern: Seq<Rule>,
    parts: Seq<Seq<char>>,
    text: Seq<char>,
    k: int,
    class: Class,
    end: int,
)
    requires
        is_match(pattern, parts, text),
        unambiguous(pattern),
        0 <= k < pattern.len(),
        pattern[k] == Rule::Any(class) || pattern[k] == Rule::Run(class),
        offset(parts, k) <= end <= text.len(),
        all_admitted(class, text.subrange(offset(parts, k), end)),
        end == text.len() || !admits(class, text[end]),
    ensures
        offset(parts, k + 1) == end,
{
    let at = offset(parts, k);
    let part = parts[k];
    lemma_part_position(parts, k);
    assert(conforms(pattern[k], part));
    assert(all_admitted(class, part));
    if at + part.len() > end {
        assert(part[end - at] == text[end]);
        assert(admits(class, part[end - at]));
    }
    if at + part.len() < end {
        let reached = at + part.len();
        assert(text.subrange(at, end)[reached - at] == text[reached]);
        if k + 1 < pattern.len() {
            lemma_part_position(parts, k + 1);
            assert(conforms(pattern[k + 1], parts[k + 1]));
            assert(stops_before(class, pattern[k + 1]));
            let next = parts[k + 1];
            assert(next.len() > 0);
            assert(text.subrange(reached, offset(parts, k + 2))[0] == text[reached]);
        } else {
            assert(parts.take(k + 1) =~= parts);
        }
    }
}

/// Two divisions of a text by an unambiguous pattern begin every part at
/// the same place.
proof fn lemma_same_offsets(
    pattern: Seq<Rule>,
    first: Seq<Seq<char>>,
    second: Seq<Seq<char>>,
    text: Seq<char>,
    k: int,
)
    requires
        is_match(pattern, first, text),
        is_match(pattern, second, text),
        unambiguous(pattern),
        0 <= k <= pattern.len(),
    ensures
        offset(first, k) == offset(second, k),
    decreases k,
{
    if k == 0 {
        assert(first.take(0) =~= second.take(0));
    } else {
        let j = k - 1;
        lemma_same_offsets(pattern, first, second, text, j);
        lemma_part_position(first, j);
        lemma_part_position(second, j);
        assert(conforms(pattern[j], first[j]));
        assert(conforms(pattern[j], second[j]));
        match pattern[j] {
            Rule::Literal(_) => {},
            Rule::One(_) => {},
            Rule::Any(class) => {
                lemma_run_stops(pattern, second, text, j, class);
                lemma_run_extent(pattern, first, text, j, class, offset(second, k));
            },
            Rule::Run(class) => {
                lemma_run_stops(pattern, second, text, j, class);
                lemma_run_extent(pattern, first, text, j, class, offset(second, k));
            },
        }
    }
}

/// In a match of an unambiguous pattern, what follows a run is the end of
/// the text or a character outside the run's class.
proof fn lemma_run_stops(
    pattern: Seq<Rule>,
    parts: Seq<Seq<char>>,
    text: Seq<char>,
    k: int,
    class: Class,
)
    requires
        is_match(pattern, parts, text),
        unambiguous(pattern),
        0 <= k < pattern.len(),
        pattern[k] == Rule::Any(class) || pattern[k] == Rule::Run(class),
    ensures
        offset(parts, k) <= offset(parts, k + 1) <= text.len(),
        all_admitted(class, text.subrange(offset(parts, k), offset(parts, k + 1))),
        offset(parts, k + 1) == text.len() || !admits(class, text[offset(parts, k + 1)]),
{
    let end = offset(parts, k + 1);
    lemma_part_position(parts, k);
    assert(conforms(pattern[k], parts[k]));
    if k + 1 < pattern.len() {
        lemma_part_position(parts, k + 1);
        assert(conforms(pattern[k + 1], parts[k + 1]));
        assert(stops_before(class, pattern[k + 1]));
        assert(text.subrange(end, offset(parts, k + 2))[0] == text[end]);
    } else {
        assert(parts.take(k + 1) =~= parts);
    }
}

/// A text has at most one division into the parts of an unambiguous
/// pattern.
pub proof fn lemma_match_unique(
    pattern: Seq<Rule>,
    first: Seq<Seq<char>>,
    second: Seq<Seq<char>>,
    text: Seq<char>,
)
    requires
        is_match(pattern, first, text),
        is_match(pattern, second, text),
        unambiguous(pattern),
    ensures
        first == second,
{
    assert forall|j: int| 0 <= j < first.len() implies first[j] == second[j] by {
        lemma_same_offsets(pattern, first, second, text, j);
        lemma_same_offsets(pattern, first, second, text, j + 1);
        lemma_part_position(first, j);
        lemma_part_position(second, j);
    }
    assert(first =~= second);
}

impl Class {
    /// Whether the class contains `c`.
    pub fn contains(&self, c: char) -> (inside: bool)
        ensures
            inside == admits(*self, c),
    {
        let word = ('a' <= c && c <= 'z') || ('A' <= c && c <= 'Z') || ('0' <= c && c <= '9') || c
            == '_';
        match self {
            Class::Word => word,
            Class::Space => c == ' ' || c == '\t' || c == '\n' || c == '\r' || c == '\u{b}' || c
                == '\u{c}',
            Class::Region => word || c == '-',
            Class::HeaderList => word || c == '-' || c == ';',
            Class::Hex => ('0' <= c && c <= '9') || ('a' <= c && c <= 'f'),
        }
    }
}

/// Whether `literal` stands in `text` at position `at`.
pub fn literal_at(text: &Vec<char>, at: usize, literal: &Vec<char>) -> (found: bool)
    requires
        at <= text.len(),
    ensures
        found == (at + literal.len() <= text.len() && text@.subrange(
            at as int,
            at + literal.len(),
        ) == literal@),
{
    if literal.len() > text.len() - at {
        return false;
    }
    let mut i: usize = 0;
    while i < literal.len()
        invariant
            i <= literal.len(),
            at + literal.len() <= text.len(),
            text@.subrange(at as int, at + i) =~= literal@.take(i as int),
        decreases literal.len() - i,
    {
        if text[at + i] != literal[i] {
            proof {
                let window = text@.subrange(at as int, at + literal.len());
                assert(window[i as int] == text@[at + i]);
            }
            return false;
        }
        proof {
            assert(text@.subrange(at as int, at + i + 1) =~= text@.subrange(at as int, at + i).push(
                text@[at + i],
            ));
            assert(literal@.take(i + 1) =~= literal@.take(i as int).push(literal@[i as int]));
        }
        i = i + 1;
    }
    assert(literal@.take(i as int) =~= literal@);
    true
}

/// The end of the longest stretch of `class` that begins at `at`.
pub fn run_end(text: &Vec<char>, at: usize, class: Class) -> (end: usize)
    requires
        at <= text.len(),
    ensures
        at <= end <= text.len(),
        all_admitted(class, text@.subrange(at as int, end as int)),
        end == text.len() || !admits(class, text@[end as int]),
{
    let mut end: usize = at;
    while end < text.len() && class.contains(text[end])
        invariant
            at <= end <= text.len(),
            all_admitted(class, text@.subrange(at as int, end as int)),
        decreases text.len() - end,
    {
        proof {
            let longer = text@.subrange(at as int, end + 1);
            assert forall|i: int| 0 <= i < longer.len() implies admits(
                class,
                #[trigger] longer[i],
            ) by {
                if i < end - at {
                    assert(longer[i] == text@.subrange(at as int, end as int)[i]);
                }
            }
        }
        end = end + 1;
    }
    end
}

/// Extending the cuts by the end of part `k` keeps every match in step.
proof fn lemma_follows_push(parts: Seq<Seq<char>>, cuts: Seq<usize>, end: usize)
    requires
        follows(parts, cuts),
        offset(parts, cuts.len() as int + 1) == end,
    ensures
        follows(parts, cuts.push(end)),
{
    let longer = cuts.push(end);
    assert forall|j: int| 0 <= j <= longer.len() implies #[trigger] offset(parts, j) == start(
        longer,
        j,
    ) by {
        if j <= cuts.len() {
            assert(start(longer, j) == start(cuts, j));
        }
    }
}

/// Divides `text` into the parts that `pattern` demands, if that can be
/// done. The cuts returned are the ends of the parts. An unambiguous
/// pattern allows one division at most, so the result is the only one.
pub fn match_pattern(text: &Vec<char>, pattern: &Vec<Piece>) -> (found: Option<Vec<usize>>)
    requires
        unambiguous(rules(pattern@)),
    ensures
        match found {
            Some(cuts) => {
                &&& cuts@.len() == pattern@.len()
                &&& is_cutting(cuts@, text@.len() as int)
                &&& is_match(rules(pattern@), parts_at(text@, cuts@), text@)
                &&& forall|parts: Seq<Seq<char>>| #[trigger]
                    is_match(rules(pattern@), parts, text@) ==> parts == parts_at(text@, cuts@)
            },
            None => forall|parts: Seq<Seq<char>>| !#[trigger] is_match(
                rules(pattern@),
                parts,
                text@,
            ),
        },
{
    let ghost grammar = rules(pattern@);
    let mut cuts: Vec<usize> = Vec::new();
    let mut at: usize = 0;
    let mut k: usize = 0;
    while k < pattern.len()
        invariant
            grammar == rules(pattern@),
            unambiguous(grammar),
            k <= pattern.len(),
            cuts@.len() == k,
            at <= text.len(),
            at == start(cuts@, k as int),
            is_cutting(cuts@, text@.len() as int),
            forall|j: int|
                0 <= j < k ==> conforms(#[trigger] grammar[j], parts_at(text@, cuts@)[j]),
            forall|parts: Seq<Seq<char>>| #[trigger]
                is_match(grammar, parts, text@) ==> follows(parts, cuts@),
        decreases pattern.len() - k,
    {
        let ghost before = cuts@;
        let end: usize;
        assert(grammar[k as int] == pattern@[k as int]@);
        match &pattern[k] {
            Piece::Literal(literal) => {
                if !literal_at(text, at, literal) {
                    proof {
                        assert forall|parts: Seq<Seq<char>>| !#[trigger] is_match(
                            grammar,
                            parts,
                            text@,
                        ) by {
                            if is_match(grammar, parts, text@) {
                                assert(follows(parts, cuts@));
                                assert(offset(parts, k as int) == at);
                                lemma_part_position(parts, k as int);
                                assert(conforms(grammar[k as int], parts[k as int]));
                            }
                        }
                    }
                    return None;
                }
                end = at + literal.len();
                proof {
                    assert forall|parts: Seq<Seq<char>>| #[trigger]
                        is_match(grammar, parts, text@) implies offset(parts, k + 1) == end by {
                        assert(follows(parts, cuts@));
                        assert(offset(parts, k as int) == at);
                        lemma_part_position(parts, k as int);
                        assert(conforms(grammar[k as int], parts[k as int]));
                    }
                }
            },
            Piece::One(class) => {
                if at >= text.len() || !class.contains(text[at]) {
                    proof {
                        assert forall|parts: Seq<Seq<char>>| !#[trigger] is_match(
                            grammar,
                            parts,
                            text@,
                        ) by {
                            if is_match(grammar, parts, text@) {
                                assert(follows(parts, cuts@));
                                assert(offset(parts, k as int) == at);
                                lemma_part_position(parts, k as int);
                                assert(conforms(grammar[k as int], parts[k as int]));
                                assert(text@.subrange(at as int, at + 1)[0] == text@[at as int]);
                            }
                        }
                    }
                    return None;
                }
                end = at + 1;
                proof {
                    assert forall|parts: Seq<Seq<char>>| #[trigger]
                        is_match(grammar, parts, text@) implies offset(parts, k + 1) == end by {
                        assert(follows(parts, cuts@));
                        assert(offset(parts, k as int) == at);
                        lemma_part_position(parts, k as int);
                        assert(conforms(grammar[k as int], parts[k as int]));
                    }
                }
            },
            Piece::Any(class) => {
                end = run_end(text, at, *class);
                proof {
                    assert forall|parts: Seq<Seq<char>>| #[trigger]
                        is_match(grammar, parts, text@) implies offset(parts, k + 1) == end by {
                        assert(follows(parts, cuts@));
                        assert(offset(parts, k as int) == at);
                        lemma_run_extent(grammar, parts, text@, k as int, *class, end as int);
                    }
                }
            },
            Piece::Run(class) => {
                end = run_end(text, at, *class);
                proof {
                    assert forall|parts: Seq<Seq<char>>| #[trigger]
                        is_match(grammar, parts, text@) implies offset(parts, k + 1) == end by {
                        assert(follows(parts, cuts@));
                        assert(offset(parts, k as int) == at);
                        lemma_run_extent(grammar, parts, text@, k as int, *class, end as int);
                    }
                }
                if end == at {
                    proof {
                        assert forall|parts: Seq<Seq<char>>| !#[trigger] is_match(
                            grammar,
                            parts,
                            text@,
                        ) by {
                            if is_match(grammar, parts, text@) {
                                assert(offset(parts, k as int) == at) by {
                                    assert(follows(parts, cuts@));
                                }
                                lemma_part_position(parts, k as int);
                                assert(conforms(grammar[k as int], parts[k as int]));
                            }
                        }
                    }
                    return None;
                }
            },
        }
        cuts.push(end);
        proof {
            let after = cuts@;
            assert forall|j: int| 0 <= j < after.len() implies start(after, j) <= #[trigger] after[j]
                <= text@.len() by {
                if j < k {
                    assert(after[j] == before[j]);
                    assert(start(after, j) == start(before, j));
                }
            }
            assert forall|j: int| 0 <= j < k + 1 implies conforms(
                #[trigger] grammar[j],
                parts_at(text@, after)[j],
            ) by {
                if j < k {
                    assert(start(after, j) == start(before, j));
                    assert(parts_at(text@, after)[j] == parts_at(text@, before)[j]);
                } else {
                    assert(parts_at(text@, after)[j] == text@.subrange(at as int, end as int));
                }
            }
            assert forall|parts: Seq<Seq<char>>| #[trigger]
                is_match(grammar, parts, text@) implies follows(parts, after) by {
                lemma_follows_push(parts, before, end);
            }
        }
        at = end;
        k = k + 1;
    }
    if at != text.len() {
        proof {
            assert forall|parts: Seq<Seq<char>>| !#[trigger] is_match(grammar, parts, text@) by {
                if is_match(grammar, parts, text@) {
                    assert(follows(parts, cuts@));
                    assert(offset(parts, k as int) == at);
                    assert(parts.take(k as int) =~= parts);
                }
            }
        }
        return None;
    }
    proof {
        lemma_cut_and_join(text@, cuts@);
        assert(text@.take(at as int) =~= text@);
        let ours = parts_at(text@, cuts@);
        assert(is_match(grammar, ours, text@));
        assert forall|parts: Seq<Seq<char>>| #[trigger]
            is_match(grammar, parts, text@) implies parts == ours by {
            assert(follows(parts, cuts@));
            assert forall|j: int| 0 <= j < parts.len() implies parts[j] == ours[j] by {
                lemma_part_position(parts, j);
                assert(offset(parts, j) == start(cuts@, j));
                assert(offset(parts, j + 1) == start(cuts@, j + 1));
            }
            assert(parts =~= ours);
        }
    }
    Some(cuts)
}

} // verus!
