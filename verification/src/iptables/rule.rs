//! Rules and the lines that append them to a chain.

use crate::error::MalformedKind;
use crate::iptables::counter::{counter_of, parse_counter, Counter};
use crate::text::{before, first_index, first_occurrence, starts_with};
use crate::text::{find, find_char, matches_at, string_from_chars, take_before, to_chars};
use crate::text::lemma_first_index_props;
use vstd::prelude::*;

verus! {

/// The free text that annotates a rule, with a counter of its own.
#[derive(Clone, Debug, PartialEq, Eq)]
pub struct Comment {
    pub comment: String,
    pub counter: Counter,
}

/// What a `Comment` holds.
pub struct CommentView {
    pub comment: Seq<char>,
    pub counter: Counter,
}

impl View for Comment {
    type V = CommentView;

    open spec fn view(&self) -> CommentView {
        CommentView { comment: self.comment@, counter: self.counter }
    }
}

/// One rule of a chain. Its signature, the text of its matches and target, is
/// what identifies it; two rules of one chain may share a signature and stay
/// two rules.
#[derive(Clone, Debug, PartialEq, Eq)]
pub struct Rule {
    pub rule: String,
    pub counter: Counter,
    pub comment: Option<Comment>,
}

/// What a `Rule` holds.
pub struct RuleView {
    pub rule: Seq<char>,
    pub counter: Counter,
    pub comment: Option<CommentView>,
}

impl View for Rule {
    type V = RuleView;

    open spec fn view(&self) -> RuleView {
        RuleView {
            rule: self.rule@,
            counter: self.counter,
            comment: match self.comment {
                Some(c) => Some(c@),
                None => None,
            },
        }
    }
}

/// What the rules of a vector hold, in order.
pub open spec fn rule_views(rules: Seq<Rule>) -> Seq<RuleView> {
    Seq::new(rules.len(), |i: int| rules[i]@)
}

/// A rule together with the name of the chain that it is appended to.
#[derive(Clone, Debug, PartialEq, Eq)]
pub struct RuleLine {
    pub chain: String,
    pub rule: Rule,
}

/// What a `RuleLine` holds.
pub struct RuleLineView {
    pub chain: Seq<char>,
    pub rule: RuleView,
}

impl View for RuleLine {
    type V = RuleLineView;

    open spec fn view(&self) -> RuleLineView {
        RuleLineView { chain: self.chain@, rule: self.rule@ }
    }
}

/// The argument of the first `--comment` option of a signature. An argument
/// that opens with a double quote runs to the next double quote, or to the end
/// of the signature when there is none; any other argument runs to the next
/// space or to the end. Backslashes are taken as they are.
pub open spec fn comment_text(signature: Seq<char>) -> Option<Seq<char>> {
    match first_occurrence(signature, "--comment "@) {
        None => None,
        Some(i) => {
            let arg = signature.skip(i + "--comment "@.len());
            if arg.len() > 0 && arg[0] == '"' {
                Some(before(arg.skip(1), '"'))
            } else {
                Some(before(arg, ' '))
            }
        },
    }
}

/// The comment of a rule with the given signature and counter. The comment
/// shares the counter of its rule.
pub open spec fn comment_of(signature: Seq<char>, counter: Counter) -> Option<CommentView> {
    match comment_text(signature) {
        Some(comment) => Some(CommentView { comment, counter }),
        None => None,
    }
}

/// What a rule line of the form `[packets:bytes] -A chain ...` denotes. The
/// counter runs to the first closing bracket. After one space follows the
/// signature, which is all the rest of the line and begins with `-A` and the
/// name of the chain, which ends at the next space or at the end of the line.
pub open spec fn rule_of_line(line: Seq<char>) -> Result<RuleLineView, MalformedKind> {
    match first_index(line, ']') {
        None => Err(MalformedKind::MalformedCounter),
        Some(close) => match counter_of(line.take(close + 1)) {
            None => Err(MalformedKind::MalformedCounter),
            Some(counter) => {
                let rest = line.skip(close + 1);
                let signature = rest.skip(1);
                let chain = before(signature.skip(3), ' ');
                if starts_with(rest, " -A "@) && chain.len() > 0 {
                    Ok(
                        RuleLineView {
                            chain,
                            rule: RuleView {
                                rule: signature,
                                counter,
                                comment: comment_of(signature, counter),
                            },
                        },
                    )
                } else {
                    Err(MalformedKind::MalformedRule)
                }
            },
        },
    }
}

/// Reads the comment out of a signature.
pub fn parse_comment(signature: &[char], counter: Counter) -> (r: Option<Comment>)
    ensures
        match r {
            Some(c) => comment_of(signature@, counter) == Some(c@),
            None => comment_of(signature@, counter) is None,
        },
{
    let marker = to_chars("--comment ");
    let n = signature.len();
    match find(signature, marker.as_slice()) {
        None => None,
        Some(i) => {
            let arg = &signature[i + marker.len()..n];
            assert(arg@ == signature@.skip(i + "--comment "@.len()));
            let text = if arg.len() > 0 && arg[0] == '"' {
                let quoted = &arg[1..arg.len()];
                assert(quoted@ == arg@.skip(1));
                take_before(quoted, '"')
            } else {
                take_before(arg, ' ')
            };
            Some(Comment { comment: string_from_chars(text), counter })
        },
    }
}

/// Reads a rule line.
pub fn parse_rule_line(line: &[char]) -> (r: Result<RuleLine, MalformedKind>)
    ensures
        match r {
            Ok(parsed) => rule_of_line(line@) == Ok::<RuleLineView, MalformedKind>(parsed@),
            Err(kind) => rule_of_line(line@) == Err::<RuleLineView, MalformedKind>(kind),
        },
{
    proof {
        lemma_first_index_props(line@, ']');
        reveal_strlit(" -A ");
    }
    let n = line.len();
    let close = match find_char(line, ']') {
        None => {
            return Err(MalformedKind::MalformedCounter);
        },
        Some(i) => i,
    };
    let token = &line[0..close + 1];
    assert(token@ == line@.take(close + 1));
    let counter = match parse_counter(token) {
        None => {
            return Err(MalformedKind::MalformedCounter);
        },
        Some(c) => c,
    };
    let rest = &line[close + 1..n];
    assert(rest@ == line@.skip(close + 1));
    let marker = to_chars(" -A ");
    if !matches_at(rest, marker.as_slice(), 0) {
        return Err(MalformedKind::MalformedRule);
    }
    let signature = &rest[1..rest.len()];
    assert(signature@ == rest@.skip(1));
    let target = &signature[3..signature.len()];
    assert(target@ == signature@.skip(3));
    let chain = take_before(target, ' ');
    if chain.len() == 0 {
        return Err(MalformedKind::MalformedRule);
    }
    let comment = parse_comment(signature, counter);
    Ok(
        RuleLine {
            chain: string_from_chars(chain),
            rule: Rule { rule: string_from_chars(signature), counter, comment },
        },
    )
}

} // verus!
