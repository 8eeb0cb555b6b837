//! Autonomy levels and the risk of shell commands.

use crate::text;
use vstd::prelude::*;
use vstd::string::*;

verus! {

/// How much the agent may do on its own.
#[derive(Debug, Clone, Copy, PartialEq, Eq, Structural)]
pub enum AutonomyLevel {
    /// Observe only.
    ReadOnly,
    /// Ask before risky operations.
    Supervised,
    /// Act within the policy without asking.
    Full,
}

/// How risky a shell command is.
#[derive(Debug, Clone, Copy, PartialEq, Eq, Structural)]
pub enum CommandRiskLevel {
    Low,
    Medium,
    High,
}

impl CommandRiskLevel {
    /// The name of the level.
    pub open spec fn spec_name(self) -> Seq<char> {
        match self {
            CommandRiskLevel::Low => "Low"@,
            CommandRiskLevel::Medium => "Medium"@,
            CommandRiskLevel::High => "High"@,
        }
    }

    /// The name of the level.
    pub fn name(&self) -> (r: &'static str)
        ensures
            r@ == self.spec_name(),
    {
        match self {
            CommandRiskLevel::Low => "Low",
            CommandRiskLevel::Medium => "Medium",
            CommandRiskLevel::High => "High",
        }
    }
}

/// Which commands count as risky, and whether the medium ones need approval.
///
/// The lists of programs and the way a command is split are a simple stand-in for
/// a real classifier, and err on the side of risk: a directory named like a program
/// counts as that program. Which risk needs approval is not decided here but by
/// `ApprovalManager::risk_needs_approval`.
///
/// A command is judged by the programs that its words name. A word ends at
/// white space, at a quote, at a character that separates commands and at a
/// slash, so that neither a pipeline nor a path hides a program.
#[derive(Debug)]
pub struct SecurityPolicy {
    pub high_risk_programs: Vec<String>,
    pub medium_risk_programs: Vec<String>,
    pub require_approval_for_medium_risk: bool,
}

/// A character that no word of a command goes across; part of the stand-in that
/// [`SecurityPolicy`] is.
pub open spec fn is_word_break(c: char) -> bool {
    ||| text::is_white(c)
    ||| c == ';'
    ||| c == '|'
    ||| c == '&'
    ||| c == '('
    ||| c == ')'
    ||| c == '`'
    ||| c == '$'
    ||| c == '"'
    ||| c == '\''
    ||| c == '/'
}

fn word_break(c: char) -> (r: bool)
    ensures
        r == is_word_break(c),
{
    text::whitespace(c) || c == ';' || c == '|' || c == '&' || c == '(' || c == ')' || c == '`' || c
        == '$' || c == '"' || c == '\'' || c == '/'
}

/// The pieces of a command between word breaks; one more than there are breaks.
pub open spec fn command_words(s: Seq<char>) -> Seq<Seq<char>>
    decreases s.len(),
{
    if s.len() == 0 {
        seq![Seq::<char>::empty()]
    } else {
        let before = command_words(s.drop_last());
        if is_word_break(s.last()) {
            before.push(Seq::empty())
        } else {
            before.drop_last().push(before.last().push(s.last()))
        }
    }
}

/// Some word of the command, in lower case, is one of the programs.
pub open spec fn names_program(command: Seq<char>, programs: Seq<Seq<char>>) -> bool {
    exists|i: int|
        0 <= i < command_words(command).len() && programs.contains(
            text::lower(#[trigger] command_words(command)[i]),
        )
}

fn command_names(command: &str, programs: &Vec<String>) -> (r: bool)
    ensures
        r == names_program(command@, text::texts(programs@)),
{
    let chars = text::chars_of(command);
    let ghost listed = text::texts(programs@);
    let ghost words = command_words(command@);
    let mut start: usize = 0;
    let mut i: usize = 0;
    let mut found: bool = false;
    assert(command@.take(0) =~= Seq::<char>::empty());
    while i < chars.len()
        invariant
            chars@ == command@,
            listed == text::texts(programs@),
            start <= i <= command@.len(),
            command_words(command@.take(i as int)).len() > 0,
            command_words(command@.take(i as int)).last() == command@.subrange(
                start as int,
                i as int,
            ),
            found == exists|k: int|
                0 <= k < command_words(command@.take(i as int)).len() - 1 && listed.contains(
                    text::lower(#[trigger] command_words(command@.take(i as int))[k]),
                ),
        decreases command@.len() - i,
    {
        let ghost prev = command@.take(i as int);
        let ghost next = command@.take(i + 1);
        let ghost old_words = command_words(prev);
        let ghost new_words = command_words(next);
        assert(next.drop_last() =~= prev);
        assert(next.last() == command@[i as int]);
        if word_break(chars[i]) {
            let word = text::text_of(&chars, start, i);
            let lowered = text::to_lower(word.as_str());
            let hit = text::lists(programs, lowered.as_str());
            assert(new_words =~= old_words.push(Seq::empty()));
            let ghost was = found;
            if hit {
                assert(listed.contains(text::lower(new_words[old_words.len() - 1])));
                found = true;
            }
            proof {
                if was {
                    let k = choose|k: int|
                        0 <= k < old_words.len() - 1 && listed.contains(
                            text::lower(#[trigger] old_words[k]),
                        );
                    assert(new_words[k] == old_words[k]);
                }
                if exists|k: int|
                    0 <= k < new_words.len() - 1 && listed.contains(
                        text::lower(#[trigger] new_words[k]),
                    ) {
                    let k = choose|k: int|
                        0 <= k < new_words.len() - 1 && listed.contains(
                            text::lower(#[trigger] new_words[k]),
                        );
                    assert(new_words[k] == old_words[k]);
                }
            }
            start = i + 1;
            assert(command@.subrange(start as int, i + 1) =~= Seq::<char>::empty());
        } else {
            assert(new_words =~= old_words.drop_last().push(
                old_words.last().push(command@[i as int]),
            ));
            assert(command@.subrange(start as int, i + 1) =~= command@.subrange(
                start as int,
                i as int,
            ).push(command@[i as int]));
            assert forall|k: int| 0 <= k < new_words.len() - 1 implies new_words[k]
                == old_words[k] by {}
            proof {
                if found {
                    let k = choose|k: int|
                        0 <= k < old_words.len() - 1 && listed.contains(
                            text::lower(#[trigger] old_words[k]),
                        );
                    assert(new_words[k] == old_words[k]);
                }
            }
        }
        i += 1;
    }
    assert(command@.take(i as int) =~= command@);
    let word = text::text_of(&chars, start, i);
    let lowered = text::to_lower(word.as_str());
    let hit = text::lists(programs, lowered.as_str());
    proof {
        if hit {
            assert(listed.contains(text::lower(words[words.len() - 1])));
        }
    }
    found || hit
}

impl SecurityPolicy {
    /// How risky a command is under this policy.
    pub open spec fn risk(&self, command: Seq<char>) -> CommandRiskLevel {
        if names_program(command, text::texts(self.high_risk_programs@)) {
            CommandRiskLevel::High
        } else if names_program(command, text::texts(self.medium_risk_programs@)) {
            CommandRiskLevel::Medium
        } else {
            CommandRiskLevel::Low
        }
    }

    /// How risky a command is.
    pub fn command_risk_level(&self, command: &str) -> (r: CommandRiskLevel)
        ensures
            r == self.risk(command@),
    {
        if command_names(command, &self.high_risk_programs) {
            CommandRiskLevel::High
        } else if command_names(command, &self.medium_risk_programs) {
            CommandRiskLevel::Medium
        } else {
            CommandRiskLevel::Low
        }
    }
}

impl Default for SecurityPolicy {
    /// Programs that destroy count as high risk, programs that change files as
    /// medium risk, and medium risk needs approval. The lists are examples to start
    /// from and no complete ones.
    fn default() -> (r: Self)
        ensures
            text::texts(r.high_risk_programs@) == seq![
                "rm"@,
                "dd"@,
                "mkfs"@,
                "shutdown"@,
                "reboot"@,
                "sudo"@,
            ],
            text::texts(r.medium_risk_programs@) == seq!["touch"@, "mkdir"@, "mv"@, "cp"@, "ln"@],
            r.require_approval_for_medium_risk,
    {
        let mut high: Vec<String> = Vec::new();
        high.push("rm".to_string());
        high.push("dd".to_string());
        high.push("mkfs".to_string());
        high.push("shutdown".to_string());
        high.push("reboot".to_string());
        high.push("sudo".to_string());
        let mut medium: Vec<String> = Vec::new();
        medium.push("touch".to_string());
        medium.push("mkdir".to_string());
        medium.push("mv".to_string());
        medium.push("cp".to_string());
        medium.push("ln".to_string());
        assert(text::texts(high@) =~= seq!["rm"@, "dd"@, "mkfs"@, "shutdown"@, "reboot"@, "sudo"@]);
        assert(text::texts(medium@) =~= seq!["touch"@, "mkdir"@, "mv"@, "cp"@, "ln"@]);
        SecurityPolicy {
            high_risk_programs: high,
            medium_risk_programs: medium,
            require_approval_for_medium_risk: true,
        }
    }
}

// ── Laws ────────────────────────────────────────────────────────────

proof fn words_of_one(word: Seq<char>)
    requires
        forall|k: int| 0 <= k < word.len() ==> !is_word_break(#[trigger] word[k]),
    ensures
        command_words(word) == seq![word],
    decreases word.len(),
{
    if word.len() == 0 {
        assert(word =~= Seq::empty());
    } else {
        let init = word.drop_last();
        assert forall|k: int| 0 <= k < init.len() implies !is_word_break(#[trigger] init[k]) by {
            assert(init[k] == word[k]);
        }
        words_of_one(init);
        assert(!is_word_break(word[word.len() - 1]));
        assert(init.push(word.last()) =~= word);
        assert(command_words(word) =~= seq![word]);
    }
}

proof fn words_join(a: Seq<char>, c: char, b: Seq<char>)
    requires
        is_word_break(c),
    ensures
        command_words(a + seq![c] + b) == command_words(a) + command_words(b),
        command_words(b).len() > 0,
    decreases b.len(),
{
    let whole = a + seq![c] + b;
    if b.len() == 0 {
        assert(whole.drop_last() =~= a);
        assert(whole.last() == c);
        assert(command_words(a).push(Seq::empty()) =~= command_words(a) + command_words(b));
    } else {
        let init = b.drop_last();
        words_join(a, c, init);
        assert(whole.drop_last() =~= a + seq![c] + init);
        let before = command_words(a) + command_words(init);
        if is_word_break(b.last()) {
            assert(before.push(Seq::empty()) =~= command_words(a) + command_words(b));
        } else {
            assert(before.drop_last().push(before.last().push(b.last())) =~= command_words(a)
                + command_words(b));
        }
    }
}

/// A program that a command names as a word of its own is found, whatever stands
/// before and behind it, and in any case.
pub proof fn named_program_is_found(
    left: Seq<char>,
    word: Seq<char>,
    right: Seq<char>,
    programs: Seq<Seq<char>>,
)
    requires
        forall|k: int| 0 <= k < word.len() ==> !is_word_break(#[trigger] word[k]),
        left.len() == 0 || is_word_break(left.last()),
        right.len() == 0 || is_word_break(right[0]),
        programs.contains(text::lower(word)),
    ensures
        names_program(left + word + right, programs),
{
    let whole = left + word + right;
    words_of_one(word);
    let tail = word + right;
    if right.len() == 0 {
        assert(tail =~= word);
        assert(command_words(tail)[0] == word);
    } else {
        words_join(word, right[0], right.skip(1));
        assert(word + seq![right[0]] + right.skip(1) =~= tail);
        assert(command_words(tail)[0] == word);
    }
    assert(command_words(tail).len() > 0);
    if left.len() == 0 {
        assert(whole =~= tail);
        assert(programs.contains(text::lower(command_words(whole)[0])));
    } else {
        words_join(left.drop_last(), left.last(), tail);
        assert(left.drop_last() + seq![left.last()] + tail =~= whole);
        let at = command_words(left.drop_last()).len() as int;
        assert(command_words(whole)[at] == word);
        assert(programs.contains(text::lower(command_words(whole)[at])));
    }
}

/// The most dangerous program that a command names decides its risk.
pub proof fn worst_program_decides(policy: SecurityPolicy, command: Seq<char>)
    ensures
        names_program(command, text::texts(policy.high_risk_programs@)) ==> policy.risk(command)
            == CommandRiskLevel::High,
        policy.risk(command) == CommandRiskLevel::High ==> names_program(
            command,
            text::texts(policy.high_risk_programs@),
        ),
        names_program(command, text::texts(policy.medium_risk_programs@)) ==> policy.risk(command)
            != CommandRiskLevel::Low,
        policy.risk(command) == CommandRiskLevel::Medium ==> names_program(
            command,
            text::texts(policy.medium_risk_programs@),
        ),
{
}

/// White space, what separates or groups commands, what substitutes, quotes and
/// slashes end a word; letters, digits and the signs of file names and options do not.
pub proof fn separators_end_words(c: char)
    ensures
        text::is_white(c) ==> is_word_break(c),
        is_word_break(';') && is_word_break('|') && is_word_break('&'),
        is_word_break('(') && is_word_break(')'),
        is_word_break('`') && is_word_break('$'),
        is_word_break('"') && is_word_break('\'') && is_word_break('/'),
        'a' <= c <= 'z' || 'A' <= c <= 'Z' || '0' <= c <= '9' ==> !is_word_break(c),
        !is_word_break('-') && !is_word_break('_') && !is_word_break('.') && !is_word_break('='),
{
}

} // verus!
