//! Choosing one option of a list from lines of user input.
//!
//! Every option contributes candidate strings, in list order: its bulletin
//! (if any), its name, then its alternative names. A line selects the option
//! of the first candidate that it equals, ignoring ASCII case. A line that
//! selects nothing may get a fuzzy suggestion, which an empty line confirms.
//!
//! `ListSelector` holds the decisions only: the caller shows the prompt,
//! reads each line, hands it to `on_line` and acts on the `Step` returned.
use vstd::prelude::*;
use vstd::string::*;
use crate::choice::{display_text, InputOption, ListConstraintError};
use crate::fuzzy::{
    all_scorable, chars_of, is_fuzzy_pick, lemma_empty_scores_zero, lemma_fuzzy_pick_unique, eq_ignore_ascii_case_chars, fuzzy_pick, fuzzy_search_chars,
    char_vec_views, opt_int, seqs_match, MAX_MATCH_LEN,
};

verus! {

/// A candidate string: its text, the index of its option, and whether it is
/// an alternative name.
pub type Candidate = (Seq<char>, int, bool);

/// The candidates of option `o`, which stands at index `i`.
pub open spec fn option_candidates<Data>(o: InputOption<Data>, i: int) -> Seq<Candidate> {
    let head: Seq<Candidate> = match o.spec_bulletin() {
        Some(b) => seq![(b, i, false)],
        None => Seq::empty(),
    };
    head + seq![(o.spec_name(), i, false)] + o.spec_aliases().map_values(
        |a: Seq<char>| (a, i, true),
    )
}

/// The candidates of a whole list, option by option.
pub open spec fn all_candidates<Data>(opts: Seq<InputOption<Data>>) -> Seq<Candidate>
    decreases opts.len(),
{
    if opts.len() == 0 {
        Seq::empty()
    } else {
        all_candidates(opts.drop_last()) + option_candidates(opts.last(), opts.len() - 1)
    }
}

/// The texts of the candidates.
pub open spec fn candidate_texts(c: Seq<Candidate>) -> Seq<Seq<char>> {
    c.map_values(|x: Candidate| x.0)
}

/// The first candidate, from position `k` on, that `line` equals ignoring
/// ASCII case.
pub open spec fn first_match_from(c: Seq<Candidate>, line: Seq<char>, k: int) -> Option<int>
    decreases c.len() - k,
{
    if k < 0 || k >= c.len() {
        None
    } else if seqs_match(c[k].0, line) {
        Some(k)
    } else {
        first_match_from(c, line, k + 1)
    }
}

/// The first candidate that `line` equals ignoring ASCII case.
pub open spec fn first_match(c: Seq<Candidate>, line: Seq<char>) -> Option<int> {
    first_match_from(c, line, 0)
}

/// What the caller does after a line.
#[derive(Clone, Copy, Debug, PartialEq, Eq, Structural)]
pub enum Step {
    /// The option at this index is chosen.
    Chosen(usize),
    /// The line selects nothing; the candidate at this index is suggested,
    /// and an empty next line confirms it.
    Suggest(usize),
    /// The line selects nothing and there is no suggestion: ask again.
    Retry,
}

/// What a line decides, when no suggestion is waiting for confirmation:
/// an empty line takes the default; otherwise the first candidate equal to
/// the line chooses its option; otherwise the fuzzy matcher's pick over all
/// candidate texts is suggested, if there is one and it can be scored.
pub open spec fn decide(c: Seq<Candidate>, default: Option<usize>, line: Seq<char>) -> Step {
    if line.len() == 0 && default is Some {
        Step::Chosen(default->0)
    } else {
        match first_match(c, line) {
            Some(k) => Step::Chosen(c[k].1 as usize),
            None => if all_scorable(line, candidate_texts(c)) {
                match fuzzy_pick(line, candidate_texts(c)) {
                    Some(k) => Step::Suggest(k as usize),
                    None => Step::Retry,
                }
            } else {
                Step::Retry
            },
        }
    }
}

/// How option `i` is marked when the list's default is `default`.
pub open spec fn default_mark(default: Option<usize>, i: int) -> Option<bool> {
    match default {
        Some(d) => Some(d as int == i),
        None => None,
    }
}

/// The question asked when the caller gives none.
pub open spec fn default_list_prompt() -> Seq<char> {
    seq![
        'E', 'n', 't', 'e', 'r', ' ', 'o', 'n', 'e', ' ', 'o', 'f', ' ', 't', 'h', 'e', ' ', 'f',
        'o', 'l', 'l', 'o', 'w', 'i', 'n', 'g', ':',
    ]
}

/// The lines that present a list: the question, then one line per option,
/// the default (if any) marked.
pub fn render_choices<Data>(options: &[InputOption<Data>], prompt: Option<String>, default: Option<usize>) -> (r: Vec<String>)
    ensures
        r@.len() == options@.len() + 1,
        r@[0]@ == (match prompt {
            Some(p) => p@,
            None => default_list_prompt(),
        }),
        forall|i: int|
            0 <= i < options@.len() ==> (#[trigger] r@[i + 1])@ == display_text(
                options@[i].spec_bulletin(),
                options@[i].spec_name(),
                default_mark(default, i),
            ),
{
    let mut r: Vec<String> = Vec::new();
    match prompt {
        Some(p) => r.push(p),
        None => {
            proof {
                reveal_strlit("Enter one of the following:");
            }
            let p = String::from_str("Enter one of the following:");
            assert(p@ =~= default_list_prompt());
            r.push(p);
        },
    }
    let mut i: usize = 0;
    while i < options.len()
        invariant
            i <= options@.len(),
            r@.len() == i + 1,
            r@[0]@ == (match prompt {
                Some(p) => p@,
                None => default_list_prompt(),
            }),
            forall|k: int|
                0 <= k < i ==> (#[trigger] r@[k + 1])@ == display_text(
                    options@[k].spec_bulletin(),
                    options@[k].spec_name(),
                    default_mark(default, k),
                ),
        decreases options@.len() - i,
    {
        let mark: Option<bool> = match default {
            Some(d) => Some(d == i),
            None => None,
        };
        r.push(options[i].get_display_string(mark));
        i = i + 1;
    }
    r
}

/// The entry of `choices` that a line names, for a plain list without
/// suggestions: the default for an empty line when there is one, else the
/// first entry equal to the line ignoring ASCII case. An empty list is
/// refused whatever the line.
pub fn find_listed(choices: &[String], line: &str, default: Option<usize>) -> (r: Result<Option<usize>, ListConstraintError>)
    requires
        choices@.len() > 0 ==> (default matches Some(d) ==> d < choices@.len()),
    ensures
        choices@.len() == 0 <==> r == Err::<Option<usize>, ListConstraintError>(ListConstraintError::EmptyList),
        choices@.len() > 0 && line@.len() == 0 && default is Some ==> r == Ok::<Option<usize>, ListConstraintError>(default),
        choices@.len() > 0 && !(line@.len() == 0 && default is Some) ==> (r matches Ok(found) && match found {
            Some(i) => {
                &&& i < choices@.len()
                &&& seqs_match(choices@[i as int]@, line@)
                &&& forall|j: int| 0 <= j < i ==> !seqs_match(#[trigger] choices@[j]@, line@)
            },
            None => forall|j: int| 0 <= j < choices@.len() ==> !seqs_match(#[trigger] choices@[j]@, line@),
        }),
        r matches Ok(Some(i)) ==> i < choices@.len(),
{
    if choices.len() == 0 {
        return Err(ListConstraintError::EmptyList);
    }
    if line.is_empty() && default.is_some() {
        return Ok(default);
    }
    let l = chars_of(line);
    let mut i: usize = 0;
    while i < choices.len()
        invariant
            l@ == line@,
            !(line@.len() == 0 && default is Some),
            i <= choices@.len(),
            forall|j: int| 0 <= j < i ==> !seqs_match(#[trigger] choices@[j]@, line@),
        decreases choices@.len() - i,
    {
        let c = chars_of(choices[i].as_str());
        if eq_ignore_ascii_case_chars(&c, &l) {
            return Ok(Some(i));
        }
        i = i + 1;
    }
    Ok(None)
}

/// The state of one selection among a non-empty list of options.
pub struct ListSelector {
    strings: Vec<String>,
    texts: Vec<Vec<char>>,
    owners: Vec<usize>,
    hidden: Vec<bool>,
    option_count: usize,
    default: Option<usize>,
    pending: Option<usize>,
    scorable: bool,
}

impl ListSelector {
    /// The candidate strings of the list.
    pub closed spec fn candidates(&self) -> Seq<Candidate> {
        Seq::new(
            self.texts@.len(),
            |k: int| (self.texts@[k]@, self.owners@[k] as int, self.hidden@[k]),
        )
    }

    /// The number of options.
    pub closed spec fn option_count(&self) -> nat {
        self.option_count as nat
    }

    /// The option chosen by an empty line.
    pub closed spec fn default_index(&self) -> Option<usize> {
        self.default
    }

    /// The suggested candidate that an empty line would confirm.
    pub closed spec fn pending(&self) -> Option<usize> {
        self.pending
    }

    /// The selector's fields agree with one another.
    pub closed spec fn wf(&self) -> bool {
        &&& self.strings@.len() == self.texts@.len()
        &&& self.owners@.len() == self.texts@.len()
        &&& self.hidden@.len() == self.texts@.len()
        &&& forall|k: int| 0 <= k < self.texts@.len() ==> (#[trigger] self.strings@[k])@ == self.texts@[k]@
        &&& forall|k: int| 0 <= k < self.texts@.len() ==> (#[trigger] self.owners@[k]) < self.option_count
        &&& self.option_count > 0
        &&& (self.default matches Some(d) ==> d < self.option_count)
        &&& (self.pending matches Some(k) ==> k < self.texts@.len())
        &&& self.scorable == (forall|k: int| 0 <= k < self.texts@.len() ==> (#[trigger] self.texts@[k])@.len() <= MAX_MATCH_LEN)
    }

    fn push_candidate(&mut self, text: &str, owner: usize, hidden: bool)
        requires
            old(self).wf(),
            owner < old(self).option_count,
        ensures
            final(self).wf(),
            final(self).candidates() == old(self).candidates().push((text@, owner as int, hidden)),
            final(self).option_count == old(self).option_count,
            final(self).default == old(self).default,
            final(self).pending == old(self).pending,
    {
        let chars = chars_of(text);
        let fits = chars.len() <= MAX_MATCH_LEN;
        self.strings.push(String::from_str(text));
        self.texts.push(chars);
        self.owners.push(owner);
        self.hidden.push(hidden);
        self.scorable = self.scorable && fits;
        proof {
            let n = self.texts@.len() - 1;
            if old(self).scorable && fits {
                assert forall|k: int| 0 <= k < self.texts@.len() implies (#[trigger] self.texts@[k])@.len()
                    <= MAX_MATCH_LEN by {
                    if k < n {
                        assert(old(self).texts@[k] == self.texts@[k]);
                    }
                }
            } else if !fits {
                assert(self.texts@[n]@.len() > MAX_MATCH_LEN);
            } else {
                let k0 = choose|k: int| 0 <= k < old(self).texts@.len() && !((#[trigger] old(self).texts@[k])@.len() <= MAX_MATCH_LEN);
                assert(self.texts@[k0] == old(self).texts@[k0]);
            }
            assert(self.candidates() =~= old(self).candidates().push((text@, owner as int, hidden)));
        }
    }

    /// A selector for `options`; `default` is the index chosen by an empty
    /// line. Fails exactly when the list is empty.
    pub fn new<Data>(options: &[InputOption<Data>], default: Option<usize>) -> (r: Result<ListSelector, ListConstraintError>)
        requires
            options@.len() > 0 ==> (default matches Some(d) ==> d < options@.len()),
        ensures
            options@.len() == 0 ==> r == Err::<ListSelector, ListConstraintError>(ListConstraintError::EmptyList),
            options@.len() > 0 ==> (r matches Ok(s) && {
                &&& s.wf()
                &&& s.candidates() == all_candidates(options@)
                &&& s.option_count() == options@.len()
                &&& s.default_index() == default
                &&& s.pending() is None
            }),
    {
        if options.len() == 0 {
            return Err(ListConstraintError::EmptyList);
        }
        let mut sel = ListSelector {
            strings: Vec::new(),
            texts: Vec::new(),
            owners: Vec::new(),
            hidden: Vec::new(),
            option_count: options.len(),
            default,
            pending: None,
            scorable: true,
        };
        assert(sel.candidates() =~= all_candidates(options@.subrange(0, 0)));
        let mut i: usize = 0;
        while i < options.len()
            invariant
                i <= options@.len(),
                sel.wf(),
                sel.option_count == options@.len(),
                sel.default == default,
                sel.pending is None,
                sel.candidates() == all_candidates(options@.subrange(0, i as int)),
            decreases options@.len() - i,
        {
            let o = &options[i];
            let ghost base = sel.candidates();
            let ghost front: Seq<Candidate> = match o.spec_bulletin() {
                Some(b) => seq![(b, i as int, false)],
                None => Seq::empty(),
            };
            match &o.bulletin_string {
                Some(b) => {
                    sel.push_candidate(b.as_str(), i, false);
                },
                None => {},
            }
            assert(sel.candidates() =~= base + front);
            sel.push_candidate(o.get_name(), i, false);
            let ghost head = sel.candidates();
            assert(head =~= base + front + seq![(o.spec_name(), i as int, false)]);
            let mut m: usize = 1;
            while m < o.names.len()
                invariant
                    1 <= m,
                    m <= o.names@.len() || m == 1,
                    sel.wf(),
                    i < sel.option_count,
                    sel.option_count == options@.len(),
                    sel.default == default,
                    sel.pending is None,
                    sel.candidates().len() == head.len() + (m - 1),
                    forall|j: int| 0 <= j < head.len() ==> #[trigger] sel.candidates()[j] == head[j],
                    forall|j: int|
                        0 <= j < m - 1 ==> #[trigger] sel.candidates()[head.len() + j] == (
                            o.names@[j + 1]@,
                            i as int,
                            true,
                        ),
                decreases o.names@.len() - m,
            {
                sel.push_candidate(o.names[m].as_str(), i, true);
                m = m + 1;
            }
            proof {
                assert(options@.subrange(0, i + 1).drop_last() =~= options@.subrange(0, i as int));
                assert(options@.subrange(0, i + 1).last() == options@[i as int]);
                let tail = o.spec_aliases().map_values(|a: Seq<char>| (a, i as int, true));
                assert(tail.len() == m - 1);
                assert forall|j: int| 0 <= j < m - 1 implies tail[j] == sel.candidates()[head.len()
                    + j] by {
                    assert(o.spec_aliases()[j] == o.names@[j + 1]@);
                }
                assert(sel.candidates() =~= head + tail);
                assert(sel.candidates() =~= base + option_candidates(*o, i as int));
            }
            i = i + 1;
        }
        assert(options@.subrange(0, options@.len() as int) =~= options@);
        Ok(sel)
    }

    fn first_exact(&self, chars: &Vec<char>) -> (r: Option<usize>)
        requires
            self.wf(),
        ensures
            opt_int(r) == first_match(self.candidates(), chars@),
            r matches Some(k) ==> k < self.candidates().len(),
    {
        let ghost c = self.candidates();
        let mut k: usize = 0;
        while k < self.texts.len()
            invariant
                self.wf(),
                c == self.candidates(),
                k <= c.len(),
                first_match(c, chars@) == first_match_from(c, chars@, k as int),
            decreases c.len() - k,
        {
            if eq_ignore_ascii_case_chars(&self.texts[k], chars) {
                return Some(k);
            }
            k = k + 1;
        }
        None
    }

    /// The option chosen without reading any line: the only one, when the
    /// list has a single option.
    pub fn auto_choice(&self) -> (r: Option<usize>)
        requires
            self.wf(),
        ensures
            r == (if self.option_count() == 1 {
                Some(0usize)
            } else {
                None
            }),
    {
        if self.option_count == 1 {
            Some(0)
        } else {
            None
        }
    }

    /// Takes one line of input. With a suggestion waiting, an empty line
    /// confirms it; any other line is decided afresh, as `decide` says.
    /// Suggestions are made only while the line and every candidate hold at
    /// most `MAX_MATCH_LEN` characters; past that the line is simply refused.
    pub fn on_line(&mut self, line: &str) -> (r: Step)
        requires
            old(self).wf(),
        ensures
            final(self).wf(),
            final(self).candidates() == old(self).candidates(),
            final(self).option_count() == old(self).option_count(),
            final(self).default_index() == old(self).default_index(),
            r == (if old(self).pending() is Some && line@.len() == 0 {
                Step::Chosen(old(self).candidates()[old(self).pending()->0 as int].1 as usize)
            } else {
                decide(old(self).candidates(), old(self).default_index(), line@)
            }),
            final(self).pending() == (match r {
                Step::Suggest(k) => Some(k),
                _ => None,
            }),
            r matches Step::Chosen(i) ==> i < old(self).option_count(),
            r matches Step::Suggest(k) ==> k < old(self).candidates().len(),
    {
        let ghost c = self.candidates();
        let chars = chars_of(line);
        let waiting = self.pending;
        self.pending = None;
        if chars.len() == 0 {
            match waiting {
                Some(k) => {
                    return Step::Chosen(self.owners[k]);
                },
                None => {},
            }
            match self.default {
                Some(d) => {
                    return Step::Chosen(d);
                },
                None => {},
            }
        }
        match self.first_exact(&chars) {
            Some(k) => {
                return Step::Chosen(self.owners[k]);
            },
            None => {},
        }
        assert(char_vec_views(self.texts@) =~= candidate_texts(c));
        if self.scorable && chars.len() <= MAX_MATCH_LEN {
            match fuzzy_search_chars(&chars, &self.texts) {
                Some(j) => {
                    self.pending = Some(j);
                    Step::Suggest(j)
                },
                None => Step::Retry,
            }
        } else {
            proof {
                if chars@.len() <= MAX_MATCH_LEN {
                    let j = choose|j: int| 0 <= j < self.texts@.len() && !((#[trigger] self.texts@[j])@.len() <= MAX_MATCH_LEN);
                    assert(candidate_texts(c)[j] == self.texts@[j]@);
                }
            }
            Step::Retry
        }
    }

    /// The number of candidate strings.
    pub fn candidate_count(&self) -> (r: usize)
        requires
            self.wf(),
        ensures
            r == self.candidates().len(),
    {
        self.texts.len()
    }

    /// The text of candidate `k`.
    pub fn candidate_text(&self, k: usize) -> (r: String)
        requires
            self.wf(),
            k < self.candidates().len(),
        ensures
            r@ == self.candidates()[k as int].0,
    {
        self.strings[k].clone()
    }

    /// The option that candidate `k` selects.
    pub fn candidate_option(&self, k: usize) -> (r: usize)
        requires
            self.wf(),
            k < self.candidates().len(),
        ensures
            r == self.candidates()[k as int].1,
            r < self.option_count(),
    {
        self.owners[k]
    }

    /// Whether candidate `k` is an alternative name rather than a bulletin
    /// or a shown name.
    pub fn candidate_is_alias(&self, k: usize) -> (r: bool)
        requires
            self.wf(),
            k < self.candidates().len(),
        ensures
            r == self.candidates()[k as int].2,
    {
        self.hidden[k]
    }
}

proof fn lemma_first_match_from_skip(c: Seq<Candidate>, line: Seq<char>, k: int)
    requires
        0 <= k <= c.len(),
        forall|j: int| 0 <= j < k ==> !seqs_match(#[trigger] c[j].0, line),
    ensures
        first_match(c, line) == first_match_from(c, line, k),
    decreases k,
{
    if k > 0 {
        lemma_first_match_from_skip(c, line, k - 1);
    }
}

proof fn lemma_first_match_from_shift(a: Seq<Candidate>, b: Seq<Candidate>, line: Seq<char>, k: int)
    requires
        0 <= k <= b.len(),
    ensures
        first_match_from(a + b, line, a.len() + k) == (match first_match_from(b, line, k) {
            Some(j) => Some(j + a.len()),
            None => None,
        }),
    decreases b.len() - k,
{
    if k < b.len() {
        assert((a + b)[a.len() + k] == b[k]);
        lemma_first_match_from_shift(a, b, line, k + 1);
    }
}

/// The first match in `a + b` is the first match in `a`, or else the first
/// match in `b` moved past `a`.
proof fn lemma_first_match_append(a: Seq<Candidate>, b: Seq<Candidate>, line: Seq<char>)
    ensures
        first_match(a + b, line) == (match first_match(a, line) {
            Some(k) => Some(k),
            None => match first_match(b, line) {
                Some(j) => Some(j + a.len()),
                None => None,
            },
        }),
{
    match first_match(a, line) {
        Some(k) => {
            lemma_first_match_prefix(a, b, line, 0);
        },
        None => {
            lemma_first_match_prefix(a, b, line, 0);
            lemma_first_match_from_shift(a, b, line, 0);
        },
    }
}

proof fn lemma_first_match_prefix(a: Seq<Candidate>, b: Seq<Candidate>, line: Seq<char>, k: int)
    requires
        0 <= k <= a.len(),
    ensures
        first_match_from(a, line, k) matches Some(j) ==> first_match_from(a + b, line, k) == Some(j),
        first_match_from(a, line, k) is None ==> first_match_from(a + b, line, k) == first_match_from(
            a + b,
            line,
            a.len() as int,
        ),
    decreases a.len() - k,
{
    if k < a.len() {
        assert((a + b)[k] == a[k]);
        lemma_first_match_prefix(a, b, line, k + 1);
    }
}

/// The candidates of a list are those of the options before `i`, then those
/// of option `i`, then those of the options after it.
proof fn lemma_all_candidates_split<Data>(opts: Seq<InputOption<Data>>, i: int)
    requires
        0 <= i < opts.len(),
    ensures
        exists|rest: Seq<Candidate>|
            all_candidates(opts) == all_candidates(opts.subrange(0, i)) + option_candidates(opts[i], i)
                + rest,
    decreases opts.len(),
{
    if i == opts.len() - 1 {
        assert(opts.drop_last() =~= opts.subrange(0, i));
        let rest = Seq::<Candidate>::empty();
        assert(all_candidates(opts) =~= all_candidates(opts.subrange(0, i)) + option_candidates(opts[i], i)
            + rest);
    } else {
        let front = opts.drop_last();
        lemma_all_candidates_split(front, i);
        assert(front.subrange(0, i) =~= opts.subrange(0, i));
        assert(front[i] == opts[i]);
        let rest0 = choose|rest: Seq<Candidate>|
            all_candidates(front) == all_candidates(front.subrange(0, i)) + option_candidates(front[i], i)
                + rest;
        let rest = rest0 + option_candidates(opts.last(), opts.len() - 1);
        assert(all_candidates(opts) =~= all_candidates(opts.subrange(0, i)) + option_candidates(opts[i], i)
            + rest);
    }
}

/// The option of every candidate of option `i` is `i`.
proof fn lemma_option_candidates_owner<Data>(o: InputOption<Data>, i: int, k: int)
    requires
        0 <= k < option_candidates(o, i).len(),
    ensures
        option_candidates(o, i)[k].1 == i,
{
}

/// The earliest candidate equal to a line, ignoring ASCII case, decides:
/// when candidate `k` equals the line and no candidate before it does, the
/// line chooses the option of candidate `k` (unless it is an empty line and
/// there is a default).
pub proof fn lemma_earliest_candidate_wins(c: Seq<Candidate>, default: Option<usize>, line: Seq<char>, k: int)
    requires
        0 <= k < c.len(),
        seqs_match(c[k].0, line),
        forall|j: int| 0 <= j < k ==> !seqs_match(#[trigger] c[j].0, line),
        line.len() > 0 || default is None,
    ensures
        first_match(c, line) == Some(k),
        decide(c, default, line) == Step::Chosen(c[k].1 as usize),
{
    lemma_first_match_from_skip(c, line, k);
}

/// A line equal, ignoring ASCII case, to any name, alternative name or
/// bulletin of option `i` chooses option `i`, provided no option before `i`
/// has a candidate equal to the line (and the line is not an empty line
/// standing for a default).
pub proof fn lemma_candidate_chooses_option<Data>(
    opts: Seq<InputOption<Data>>,
    default: Option<usize>,
    i: int,
    line: Seq<char>,
)
    requires
        0 <= i < opts.len(),
        first_match(option_candidates(opts[i], i), line) is Some,
        first_match(all_candidates(opts.subrange(0, i)), line) is None,
        line.len() > 0 || default is None,
    ensures
        decide(all_candidates(opts), default, line) == Step::Chosen(i as usize),
{
    lemma_all_candidates_split(opts, i);
    let before = all_candidates(opts.subrange(0, i));
    let mine = option_candidates(opts[i], i);
    let rest = choose|rest: Seq<Candidate>| all_candidates(opts) == before + mine + rest;
    lemma_first_match_append(before, mine, line);
    lemma_first_match_append(before + mine, rest, line);
    let j = first_match(mine, line)->0;
    lemma_first_match_in_range(mine, line, 0);
    lemma_option_candidates_owner(opts[i], i, j);
    assert((before + mine + rest)[j + before.len()] == mine[j]);
}

proof fn lemma_first_match_in_range(c: Seq<Candidate>, line: Seq<char>, k: int)
    requires
        0 <= k,
    ensures
        first_match_from(c, line, k) matches Some(j) ==> k <= j < c.len(),
    decreases c.len() - k,
{
    if k < c.len() {
        lemma_first_match_in_range(c, line, k + 1);
    }
}

/// A line equal to option `i`'s name, ignoring ASCII case, chooses option
/// `i` when no option before `i` has a candidate equal to the line.
pub proof fn lemma_name_chooses_option<Data>(
    opts: Seq<InputOption<Data>>,
    default: Option<usize>,
    i: int,
    line: Seq<char>,
)
    requires
        0 <= i < opts.len(),
        seqs_match(opts[i].spec_name(), line),
        first_match(all_candidates(opts.subrange(0, i)), line) is None,
        line.len() > 0 || default is None,
    ensures
        decide(all_candidates(opts), default, line) == Step::Chosen(i as usize),
{
    let mine = option_candidates(opts[i], i);
    let n = if opts[i].spec_bulletin() is Some {
        1int
    } else {
        0
    };
    assert(mine[n].0 == opts[i].spec_name());
    lemma_first_match_some(mine, line, n);
    lemma_candidate_chooses_option(opts, default, i, line);
}

/// A line equal to one of option `i`'s alternative names, ignoring ASCII
/// case, chooses option `i` when no option before `i` has a candidate equal
/// to the line.
pub proof fn lemma_alias_chooses_option<Data>(
    opts: Seq<InputOption<Data>>,
    default: Option<usize>,
    i: int,
    m: int,
    line: Seq<char>,
)
    requires
        0 <= i < opts.len(),
        0 <= m < opts[i].spec_aliases().len(),
        seqs_match(opts[i].spec_aliases()[m], line),
        first_match(all_candidates(opts.subrange(0, i)), line) is None,
        line.len() > 0 || default is None,
    ensures
        decide(all_candidates(opts), default, line) == Step::Chosen(i as usize),
{
    let mine = option_candidates(opts[i], i);
    let n = if opts[i].spec_bulletin() is Some {
        2int
    } else {
        1
    };
    assert(mine[n + m].0 == opts[i].spec_aliases()[m]);
    lemma_first_match_some(mine, line, n + m);
    lemma_candidate_chooses_option(opts, default, i, line);
}

proof fn lemma_first_match_some(c: Seq<Candidate>, line: Seq<char>, k: int)
    requires
        0 <= k < c.len(),
        seqs_match(c[k].0, line),
    ensures
        first_match(c, line) is Some,
{
    if first_match(c, line) is None {
        assert forall|j: int| 0 <= j < k implies !seqs_match(#[trigger] c[j].0, line) by {
            lemma_first_match_none(c, line, 0, j);
        }
        lemma_first_match_from_skip(c, line, k);
    }
}

proof fn lemma_first_match_none(c: Seq<Candidate>, line: Seq<char>, k: int, j: int)
    requires
        0 <= k <= j < c.len(),
        first_match_from(c, line, k) is None,
    ensures
        !seqs_match(c[j].0, line),
    decreases j - k,
{
    if k < j {
        lemma_first_match_none(c, line, k + 1, j);
    }
}

/// An empty line takes the default when there is one; when there is none,
/// and no candidate is empty, it is refused with no suggestion, so that the
/// question is asked again.
pub proof fn lemma_empty_line(c: Seq<Candidate>, default: Option<usize>)
    ensures
        default matches Some(d) ==> decide(c, default, Seq::empty()) == Step::Chosen(d),
        default is None && (forall|k: int| 0 <= k < c.len() ==> (#[trigger] c[k]).0.len() > 0)
            ==> decide(c, default, Seq::empty()) == Step::Retry,
{
    let line = Seq::<char>::empty();
    if default is None && (forall|k: int| 0 <= k < c.len() ==> (#[trigger] c[k]).0.len() > 0) {
        assert forall|j: int| 0 <= j < c.len() implies !seqs_match(#[trigger] c[j].0, line) by {
            assert(c[j].0.len() > 0);
        }
        lemma_first_match_from_skip(c, line, c.len() as int);
        let texts = candidate_texts(c);
        assert forall|j: int| 0 <= j < texts.len() implies crate::fuzzy::score_numerator(line, #[trigger] texts[j]) == 0 by {
            lemma_empty_scores_zero(line, texts[j]);
        }
        assert(is_fuzzy_pick(line, texts, None));
        lemma_fuzzy_pick_unique(line, texts, None);
    }
}

/// Why a selection over a fixed list of lines ended without a choice.
#[derive(Clone, Copy, Debug, PartialEq, Eq, Structural)]
pub enum SelectionError {
    /// The list has no options.
    EmptyList,
    /// The lines ran out before one of them chose an option.
    EndOfInput,
}

/// What one line does, given the suggestion waiting for confirmation.
pub open spec fn step_outcome(c: Seq<Candidate>, default: Option<usize>, pending: Option<usize>, line: Seq<char>) -> Step {
    if pending is Some && line.len() == 0 {
        Step::Chosen(c[pending->0 as int].1 as usize)
    } else {
        decide(c, default, line)
    }
}

/// The option chosen by feeding `lines[k..]` one by one, and how many lines
/// were used in all; `None` when they run out first.
pub open spec fn run_lines(
    c: Seq<Candidate>,
    default: Option<usize>,
    pending: Option<usize>,
    lines: Seq<Seq<char>>,
    k: int,
) -> Option<(usize, int)>
    decreases lines.len() - k,
{
    if k < 0 || k >= lines.len() {
        None
    } else {
        match step_outcome(c, default, pending, lines[k]) {
            Step::Chosen(i) => Some((i, k + 1)),
            Step::Suggest(j) => run_lines(c, default, Some(j), lines, k + 1),
            Step::Retry => run_lines(c, default, None, lines, k + 1),
        }
    }
}

/// Runs a whole selection over `lines`, read in order: returns the chosen
/// option and the number of lines read. An empty list fails before any line
/// is read, and a single option is chosen without reading any.
pub fn select_from_lines<Data>(options: &[InputOption<Data>], default: Option<usize>, lines: &[&str]) -> (r: Result<(usize, usize), SelectionError>)
    requires
        options@.len() > 0 ==> (default matches Some(d) ==> d < options@.len()),
    ensures
        options@.len() == 0 ==> r == Err::<(usize, usize), SelectionError>(SelectionError::EmptyList),
        options@.len() == 1 ==> r == Ok::<(usize, usize), SelectionError>((0usize, 0usize)),
        options@.len() > 1 ==> r == match run_lines(all_candidates(options@), default, None, lines@.map_values(|l: &str| l@), 0) {
            Some((i, used)) => Ok::<(usize, usize), SelectionError>((i, used as usize)),
            None => Err(SelectionError::EndOfInput),
        },
        r matches Ok((i, used)) ==> i < options@.len() && used <= lines@.len(),
{
    let mut sel = match ListSelector::new(options, default) {
        Ok(s) => s,
        Err(_) => {
            return Err(SelectionError::EmptyList);
        },
    };
    match sel.auto_choice() {
        Some(i) => {
            return Ok((i, 0));
        },
        None => {},
    }
    let ghost c = sel.candidates();
    let ghost views = lines@.map_values(|l: &str| l@);
    let mut k: usize = 0;
    while k < lines.len()
        invariant
            sel.wf(),
            sel.candidates() == c,
            sel.default_index() == default,
            sel.option_count() == options@.len(),
            c == all_candidates(options@),
            options@.len() > 1,
            views == lines@.map_values(|l: &str| l@),
            k <= lines@.len(),
            run_lines(c, default, None, views, 0) == run_lines(c, default, sel.pending(), views, k as int),
        decreases lines@.len() - k,
    {
        let step = sel.on_line(lines[k]);
        assert(views[k as int] == lines@[k as int]@);
        match step {
            Step::Chosen(i) => {
                return Ok((i, k + 1));
            },
            _ => {},
        }
        k = k + 1;
    }
    Err(SelectionError::EndOfInput)
}

/// In a whole selection, an empty first line takes the default when there
/// is one; when there is none, and no candidate is empty, it is passed over
/// and the next line decides.
pub proof fn lemma_empty_first_line(c: Seq<Candidate>, default: Option<usize>, lines: Seq<Seq<char>>)
    requires
        lines.len() > 0,
        lines[0].len() == 0,
    ensures
        default matches Some(d) ==> run_lines(c, default, None, lines, 0) == Some((d, 1int)),
        default is None && (forall|k: int| 0 <= k < c.len() ==> (#[trigger] c[k]).0.len() > 0)
            ==> run_lines(c, default, None, lines, 0) == run_lines(c, default, None, lines, 1),
{
    lemma_empty_line(c, default);
    assert(lines[0] =~= Seq::<char>::empty());
}

} // verus!
