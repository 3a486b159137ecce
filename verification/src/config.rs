//! The configuration of the development lifecycle: its states, the labels
//! that mark them and the keywords that move an issue between them.

use vstd::prelude::*;
use crate::string_map::StringMap;
use crate::text::{
    chars_eq, chars_of, is_ws, lemma_chars_deep_view, lemma_skip_back_while, lemma_skip_while,
    ne_pred, skip_back_while, skip_while, split_char, split_char_exec, split_from, string_of,
    trim_exec, trim_ws, ws_pred,
};

verus! {

/// The lifecycle configuration.
pub struct SdlcConfig {
    pub states: Vec<StateConfig>,
    pub human_help_label: String,
    pub lock_label: String,
    pub enabled_label: String,
    pub failure_label: String,
    pub pr_defined_keyword: String,
    pub merge_conflict_keyword: String,
}

/// One state of the lifecycle.
pub struct StateConfig {
    pub name: String,
    pub label: String,
    /// The instructions for the agent in this state (also accepted under
    /// the name `prompt_suffix`).
    pub prompt: String,
    pub next_state: Option<String>,
    /// Keyword to comma-separated labels.
    pub keywords: StringMap,
    pub doc_file: Option<String>,
}

/// The keyword that marks a pull request as described, when the
/// configuration names none.
pub fn default_pr_defined_keyword() -> (res: String)
    ensures
        res@ == "CHANGES_SUMMARIZED"@,
{
    "CHANGES_SUMMARIZED".to_owned()
}

/// The keyword that marks merge conflicts as resolved, when the
/// configuration names none.
pub fn default_merge_conflict_keyword() -> (res: String)
    ensures
        res@ == "MERGE_RESOLVED"@,
{
    "MERGE_RESOLVED".to_owned()
}

/// The index of the first state whose label is `label`.
pub open spec fn first_state_with_label(states: Seq<StateConfig>, label: Seq<char>) -> Option<int>
    decreases states.len(),
{
    if states.len() == 0 {
        None
    } else {
        match first_state_with_label(states.drop_last(), label) {
            Some(i) => Some(i),
            None => if states.last().label@ == label {
                Some(states.len() - 1)
            } else {
                None
            },
        }
    }
}

/// What `first_state_with_label` returns.
pub proof fn lemma_first_state_with_label(states: Seq<StateConfig>, label: Seq<char>)
    ensures
        match first_state_with_label(states, label) {
            Some(i) => 0 <= i < states.len() && states[i].label@ == label && forall|j: int|
                0 <= j < i ==> states[j].label@ != label,
            None => forall|j: int| 0 <= j < states.len() ==> states[j].label@ != label,
        },
    decreases states.len(),
{
    if states.len() > 0 {
        let rest = states.drop_last();
        lemma_first_state_with_label(rest, label);
        assert forall|j: int| 0 <= j < rest.len() implies rest[j] == states[j] by {}
    }
}

/// The labels that a keyword's comma-separated value names, each trimmed.
pub open spec fn labels_of(value: Seq<char>) -> Seq<Seq<char>> {
    split_char(value, ',').map_values(|p: Seq<char>| trim_ws(p))
}

impl SdlcConfig {
    /// The first state whose label is `label`.
    pub fn get_state(&self, label: &str) -> (res: Option<&StateConfig>)
        ensures
            match first_state_with_label(self.states@, label@) {
                Some(i) => res == Some(&self.states@[i]),
                None => res is None,
            },
    {
        proof {
            lemma_first_state_with_label(self.states@, label@);
        }
        let wanted = chars_of(label);
        let mut i: usize = 0;
        while i < self.states.len()
            invariant
                i <= self.states@.len(),
                wanted@ == label@,
                forall|j: int| 0 <= j < i ==> self.states@[j].label@ != label@,
            decreases self.states@.len() - i,
        {
            let l = chars_of(self.states[i].label.as_str());
            if chars_eq(l.as_slice(), wanted.as_slice()) {
                proof {
                    lemma_first_state_with_label(self.states@, label@);
                    if let Some(k) = first_state_with_label(self.states@, label@) {
                        assert(k == i);
                    }
                }
                return Some(&self.states[i]);
            }
            i = i + 1;
        }
        None
    }
}

impl StateConfig {
    /// The labels configured for `keyword`: its value split at commas, each
    /// part trimmed; no labels when the keyword is not configured.
    pub fn get_labels_for_keyword(&self, keyword: &str) -> (res: Vec<String>)
        ensures
            self.keywords@.contains_key(keyword@) ==> res.deep_view() == labels_of(
                self.keywords@[keyword@],
            ),
            !self.keywords@.contains_key(keyword@) ==> res@.len() == 0,
    {
        match self.keywords.get(keyword) {
            None => Vec::new(),
            Some(value) => {
                let v = chars_of(value.as_str());
                let parts = split_char_exec(v.as_slice(), ',');
                let mut res: Vec<String> = Vec::new();
                let mut k: usize = 0;
                while k < parts.len()
                    invariant
                        k <= parts@.len(),
                        parts.deep_view() == split_char(v@, ','),
                        res.deep_view() =~= parts.deep_view().take(k as int).map_values(
                            |p: Seq<char>| trim_ws(p),
                        ),
                    decreases parts@.len() - k,
                {
                    proof {
                        lemma_chars_deep_view(parts@[k as int]);
                    }
                    let t = trim_exec(parts[k].as_slice());
                    let label = string_of(t.as_slice());
                    res.push(label);
                    assert(parts.deep_view().take(k + 1).map_values(|p: Seq<char>| trim_ws(p))
                        =~= parts.deep_view().take(k as int).map_values(
                        |p: Seq<char>| trim_ws(p),
                    ).push(trim_ws(parts@[k as int]@)));
                    k = k + 1;
                }
                assert(parts.deep_view().take(parts@.len() as int) =~= parts.deep_view());
                res
            },
        }
    }
}

/// No piece of a split contains the separator.
proof fn lemma_split_pieces_lack_separator(s: Seq<char>, i: int, d: char)
    requires
        0 <= i <= s.len(),
    ensures
        forall|k: int, j: int|
            0 <= k < split_from(s, i, d).len() && 0 <= j < split_from(s, i, d)[k].len()
                ==> split_from(s, i, d)[k][j] != d,
    decreases s.len() - i,
{
    let e = skip_while(s, i, ne_pred(d));
    lemma_skip_while(s, i, ne_pred(d));
    if e < s.len() {
        lemma_split_pieces_lack_separator(s, e + 1, d);
        let rest = split_from(s, e + 1, d);
        assert forall|k: int, j: int|
            0 <= k < split_from(s, i, d).len() && 0 <= j < split_from(s, i, d)[k].len()
                implies split_from(s, i, d)[k][j] != d by {
            if k == 0 {
                assert(split_from(s, i, d)[0][j] == s[i + j]);
                assert(ne_pred(d)(s[i + j]));
            } else {
                assert(split_from(s, i, d)[k] == rest[k - 1]);
            }
        }
    } else {
        assert forall|k: int, j: int|
            0 <= k < split_from(s, i, d).len() && 0 <= j < split_from(s, i, d)[k].len()
                implies split_from(s, i, d)[k][j] != d by {
            assert(split_from(s, i, d)[0][j] == s[i + j]);
            assert(ne_pred(d)(s[i + j]));
        }
    }
}

/// Trimming keeps a stretch of the characters and leaves none of the
/// whitespace at either end.
proof fn lemma_trim_ws(p: Seq<char>)
    ensures
        exists|a: int, b: int|
            0 <= a <= b <= p.len() && trim_ws(p) == #[trigger] p.subrange(a, b),
        trim_ws(p).len() > 0 ==> !is_ws(trim_ws(p)[0]) && !is_ws(trim_ws(p).last()),
{
    let a = skip_while(p, 0, ws_pred());
    lemma_skip_while(p, 0, ws_pred());
    let t = p.skip(a);
    let b = skip_back_while(t, t.len() as int, ws_pred());
    lemma_skip_back_while(t, t.len() as int, ws_pred());
    assert(trim_ws(p) =~= p.subrange(a, a + b));
    if b > 0 {
        assert(t[0] == p[a]);
        assert(a < p.len());
    }
}

/// Every label a keyword names is clean: it holds no comma and neither
/// starts nor ends with whitespace.
pub proof fn law_labels_are_trimmed_and_comma_free(value: Seq<char>)
    ensures
        forall|i: int, j: int|
            0 <= i < labels_of(value).len() && 0 <= j < labels_of(value)[i].len()
                ==> labels_of(value)[i][j] != ',',
        forall|i: int|
            0 <= i < labels_of(value).len() && labels_of(value)[i].len() > 0 ==> !is_ws(
                labels_of(value)[i][0],
            ) && !is_ws(labels_of(value)[i].last()),
{
    lemma_split_pieces_lack_separator(value, 0, ',');
    let parts = split_char(value, ',');
    assert forall|i: int, j: int|
        0 <= i < labels_of(value).len() && 0 <= j < labels_of(value)[i].len()
            implies labels_of(value)[i][j] != ',' by {
        lemma_trim_ws(parts[i]);
        let (a, b) = choose|a: int, b: int|
            0 <= a <= b <= parts[i].len() && trim_ws(parts[i]) == #[trigger] parts[i].subrange(
                a,
                b,
            );
        assert(labels_of(value)[i][j] == parts[i][a + j]);
    }
    assert forall|i: int|
        0 <= i < labels_of(value).len() && labels_of(value)[i].len() > 0 implies !is_ws(
            labels_of(value)[i][0],
        ) && !is_ws(labels_of(value)[i].last()) by {
        lemma_trim_ws(parts[i]);
    }
}

} // verus!
