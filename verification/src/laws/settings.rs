//! What the variables of the configuration mean, stated over their values.

use std::time::Duration;

use vstd::prelude::*;

use crate::config;
use crate::config::{RawConfig, WorkspaceMode};
use crate::text;

verus! {

/// Whether the variable has this value.
pub open spec fn is_set_to(value: Option<String>, text: Seq<char>) -> bool {
    value matches Some(v) && v@ == text
}

/// Whether `w` is `word`, a word in small letters, but for letters of `w` that
/// are capital.
pub open spec fn same_letters(w: Seq<char>, word: Seq<char>) -> bool {
    &&& w.len() == word.len()
    &&& forall|i: int|
        0 <= i < w.len() ==> #[trigger] w[i] == word[i] || ('A' <= w[i] <= 'Z' && w[i] as u32 + 32
            == word[i] as u32)
}

/// Whether a value is, from place `n` to place `m`, the word in small or
/// capital letters, with nothing but white space around it.
pub open spec fn spells_between(value: Seq<char>, n: int, m: int, word: Seq<char>) -> bool {
    &&& 0 <= n <= m <= value.len()
    &&& text::is_blank(value.take(n))
    &&& text::is_blank(value.skip(m))
    &&& same_letters(value.subrange(n, m), word)
}

/// Whether a value is the word, in small or capital letters, with white space
/// around it or none.
pub open spec fn spells(value: Seq<char>, word: Seq<char>) -> bool {
    exists|n: int, m: int| #[trigger] spells_between(value, n, m, word)
}

/// Whether the variable turns its switch on.
pub open spec fn turned_on(value: Option<String>) -> bool {
    value matches Some(v) && (spells(v@, "1"@) || spells(v@, "true"@) || spells(v@, "yes"@)
        || spells(v@, "on"@))
}

/// Whether the variable turns its switch off, or leaves it off.
pub open spec fn turned_off(value: Option<String>) -> bool {
    value matches Some(v) ==> spells(v@, "0"@) || spells(v@, "false"@) || spells(v@, "no"@)
        || spells(v@, "off"@)
}

/// Whether the value of a switch is understood.
pub open spec fn is_switch(value: Option<String>) -> bool {
    turned_on(value) || turned_off(value)
}

/// Whether the value names a mode.
pub open spec fn is_mode(value: Option<String>) -> bool {
    ||| value is None
    ||| is_set_to(value, "next-free"@)
    ||| is_set_to(value, "new-each"@)
    ||| is_set_to(value, "same"@)
}

/// Whether the value is a number of milliseconds.
pub open spec fn is_timeout(value: Option<String>) -> bool {
    value matches Some(v) ==> text::decimal_u64(v@) is Some
}

/// Whether the value is a pattern that compiles, or there is none.
pub open spec fn is_pattern(value: Option<String>) -> bool {
    value matches Some(v) ==> v@.len() == 0 || config::compiled_regex(v@) is Ok
}

/// A word to compare with: of small letters and digits.
spec fn is_word(word: Seq<char>) -> bool {
    &&& word.len() > 0
    &&& forall|i: int|
        0 <= i < word.len() ==> 'a' <= (#[trigger] word[i]) <= 'z' || '0' <= word[i] <= '9'
}

proof fn lemma_words()
    ensures
        is_word("0"@) && is_word("1"@) && is_word("true"@) && is_word("false"@) && is_word("yes"@)
            && is_word("no"@) && is_word("on"@) && is_word("off"@),
        ({
            let off = seq!["0"@, "false"@, "no"@, "off"@];
            let on = seq!["1"@, "true"@, "yes"@, "on"@];
            forall|i: int, j: int| 0 <= i < 4 && 0 <= j < 4 ==> #[trigger] off[i] != #[trigger] on[j]
        }),
{
    reveal_strlit("0");
    reveal_strlit("1");
    reveal_strlit("true");
    reveal_strlit("false");
    reveal_strlit("yes");
    reveal_strlit("no");
    reveal_strlit("on");
    reveal_strlit("off");
    let off = seq!["0"@, "false"@, "no"@, "off"@];
    let on = seq!["1"@, "true"@, "yes"@, "on"@];
    assert("0"@[0] == '0' && "1"@[0] == '1' && "no"@[0] == 'n' && "on"@[0] == 'o');
    assert(off[0].len() == 1 && off[1].len() == 5 && off[2].len() == 2 && off[3].len() == 3);
    assert(on[0].len() == 1 && on[1].len() == 4 && on[2].len() == 3 && on[3].len() == 2);
    assert("off"@[0] == 'o' && "yes"@[0] == 'y');
}

proof fn lemma_switch_text_spells(value: Seq<char>, word: Seq<char>)
    requires
        config::switch_text(value) == word,
    ensures
        spells(value, word),
{
    text::law_trimmed(value);
    let (n, m) = choose|n: int, m: int|
        0 <= n <= m <= value.len() && text::trimmed(value) == #[trigger] value.subrange(n, m) && (
        forall|i: int|
            0 <= i < n || m <= i < value.len() ==> text::is_white_space(#[trigger] value[i]));
    let w = value.subrange(n, m);
    let after = value.skip(m);
    assert forall|i: int| 0 <= i < after.len() implies text::is_white_space(#[trigger] after[i]) by {
        assert(after[i] == value[i + m]);
    }
    text::law_lower_case(w);
    assert forall|i: int| 0 <= i < w.len() implies #[trigger] w[i] == word[i] || ('A' <= w[i] <= 'Z'
        && w[i] as u32 + 32 == word[i] as u32) by {
        assert(text::ascii_lower(w)[i] == word[i]);
    }
    assert(spells_between(value, n, m, word));
}

/// A text that neither starts nor ends with white space is trimmed already.
proof fn lemma_trimmed_already(w: Seq<char>)
    requires
        forall|i: int| 0 <= i < w.len() ==> !text::is_white_space(#[trigger] w[i]),
    ensures
        text::trimmed(w) == w,
{
    text::law_trimmed(w);
    let (n, m) = choose|n: int, m: int|
        0 <= n <= m <= w.len() && text::trimmed(w) == #[trigger] w.subrange(n, m) && (forall|i: int|
            0 <= i < n || m <= i < w.len() ==> text::is_white_space(#[trigger] w[i]));
    if n > 0 {
        assert(text::is_white_space(w[0]));
    }
    if m < w.len() {
        assert(text::is_white_space(w[m]));
    }
    assert(text::trimmed(w) =~= w);
}

proof fn lemma_spelled(value: Seq<char>, word: Seq<char>)
    requires
        is_word(word),
        spells(value, word),
    ensures
        config::switch_text(value) == word,
{
    let (n, m) = choose|n: int, m: int| #[trigger] spells_between(value, n, m, word);
    let w = value.subrange(n, m);
    assert(value =~= value.take(n) + w + value.skip(m));
    text::lemma_trimmed_of_padded(value.take(n), w, value.skip(m));
    text::law_lower_case(w);
    assert forall|i: int| 0 <= i < w.len() implies !text::is_white_space(#[trigger] w[i]) && text::ascii_lower(
        w,
    )[i] == word[i] by {
        assert(w[i] == word[i] || ('A' <= w[i] <= 'Z' && w[i] as u32 + 32 == word[i] as u32));
        assert('a' <= word[i] <= 'z' || '0' <= word[i] <= '9');
    }
    lemma_trimmed_already(w);
    assert(text::ascii_lower(w) =~= word);
}

proof fn lemma_spells(value: Seq<char>, word: Seq<char>)
    requires
        is_word(word),
    ensures
        (config::switch_text(value) == word) == spells(value, word),
{
    if config::switch_text(value) == word {
        lemma_switch_text_spells(value, word);
    }
    if spells(value, word) {
        lemma_spelled(value, word);
    }
}

/// A switch is on exactly if its variable says so, off if it says so or is not
/// set, and refused with its name and its value otherwise.
pub proof fn law_switch(variable: Seq<char>, value: Option<String>)
    ensures
        turned_on(value) ==> config::switch_of(variable, config::optional_text(value)) == Ok::<
            bool,
            config::ConfigErrorView,
        >(true),
        turned_off(value) ==> config::switch_of(variable, config::optional_text(value)) == Ok::<
            bool,
            config::ConfigErrorView,
        >(false),
        !is_switch(value) ==> config::switch_of(variable, config::optional_text(value)) == Err::<
            bool,
            config::ConfigErrorView,
        >(config::ConfigErrorView::Switch { variable, value: value->Some_0@ }),
{
    if let Some(v) = value {
        lemma_words();
        lemma_spells(v@, "0"@);
        lemma_spells(v@, "false"@);
        lemma_spells(v@, "no"@);
        lemma_spells(v@, "off"@);
        lemma_spells(v@, "1"@);
        lemma_spells(v@, "true"@);
        lemma_spells(v@, "yes"@);
        lemma_spells(v@, "on"@);
        let off = seq!["0"@, "false"@, "no"@, "off"@];
        let on = seq!["1"@, "true"@, "yes"@, "on"@];
        let word = config::switch_text(v@);
        if word == off[0] || word == off[1] || word == off[2] || word == off[3] {
            assert(word != on[0] && word != on[1] && word != on[2] && word != on[3]);
        }
    }
}

/// A configuration is taken exactly if every variable is understood.
pub proof fn law_configuration_is_taken(raw: RawConfig)
    ensures
        config::config_of(raw) is Ok <==> is_mode(raw.workspace_mode) && is_switch(raw.maximize)
            && is_switch(raw.switch_to_workspace) && is_timeout(raw.switch_verify_timeout_ms)
            && is_pattern(raw.excluded_title_regex) && is_switch(raw.jump_on_empty),
{
    law_switch("MAXIMIZE"@, raw.maximize);
    law_switch("SWITCH_TO_WORKSPACE"@, raw.switch_to_workspace);
    law_switch("JUMP_ON_EMPTY"@, raw.jump_on_empty);
    lemma_timeout(raw.switch_verify_timeout_ms);
}

proof fn lemma_timeout(value: Option<String>)
    ensures
        config::verify_timeout_of(config::optional_text(value)) is Ok <==> is_timeout(value),
        is_set_to(value, "0"@) ==> text::decimal_u64("0"@) == Some(0u64),
{
    reveal_strlit("0");
    assert("0"@ =~= seq!['0']);
    text::law_one_digit('0');
}

/// Each part of a configuration that is taken is what its own variable says,
/// whatever the others are.
pub proof fn law_each_variable_has_its_part(raw: RawConfig)
    ensures
        config::config_of(raw) matches Ok(c) ==> {
            &&& c.workspace_mode == WorkspaceMode::NextFree <==> raw.workspace_mode is None
                || is_set_to(raw.workspace_mode, "next-free"@)
            &&& c.workspace_mode == WorkspaceMode::NewEach <==> is_set_to(
                raw.workspace_mode,
                "new-each"@,
            )
            &&& c.workspace_mode == WorkspaceMode::Same <==> is_set_to(raw.workspace_mode, "same"@)
            &&& c.maximize <==> turned_on(raw.maximize)
            &&& c.switch_to_workspace <==> turned_on(raw.switch_to_workspace)
            &&& c.jump_on_empty <==> turned_on(raw.jump_on_empty)
            &&& c.switch_verify_timeout == timeout_of(raw.switch_verify_timeout_ms)
            &&& c.excluded_app_ids == (match raw.excluded_app_ids {
                Some(v) => text::list_entries(v@),
                None => Seq::empty(),
            })
            &&& c.excluded_title_regex == (match raw.excluded_title_regex {
                Some(v) => if v@.len() == 0 {
                    None
                } else {
                    Some(config::compiled_regex(v@)->Ok_0)
                },
                None => None,
            })
            &&& c.workspace_output == (match raw.workspace_output {
                Some(v) => if v@.len() == 0 {
                    None
                } else {
                    Some(v@)
                },
                None => None,
            })
        },
{
    law_switch("MAXIMIZE"@, raw.maximize);
    law_switch("SWITCH_TO_WORKSPACE"@, raw.switch_to_workspace);
    law_switch("JUMP_ON_EMPTY"@, raw.jump_on_empty);
    reveal_strlit("0");
    assert("0"@ =~= seq!['0']);
    reveal_strlit("next-free");
    reveal_strlit("new-each");
    reveal_strlit("same");
    assert("next-free"@.len() == 9 && "new-each"@.len() == 8 && "same"@.len() == 4);
}

/// The timeout that a value stands for: a quarter of a second where none is
/// given, none for a lone zero, and else as many milliseconds as it says.
pub open spec fn timeout_of(value: Option<String>) -> Option<Duration> {
    match value {
        None => Some(config::millis_duration(250)),
        Some(v) => if v@ == seq!['0'] {
            None
        } else {
            match text::decimal_u64(v@) {
                Some(n) => Some(config::millis_duration(n)),
                None => None,
            }
        },
    }
}

/// How long a timeout lasts is what the value says.
pub proof fn law_how_long_a_switch_may_take(value: Option<String>)
    ensures
        config::verify_millis_of(config::optional_text(value)) == (match value {
            None => Some(250u64),
            Some(v) => if v@ == seq!['0'] {
                None
            } else {
                text::decimal_u64(v@)
            },
        }),
{
    reveal_strlit("0");
    assert("0"@ =~= seq!['0']);
}

/// Of several faults the first is reported, in the order of the mode, the two
/// switches, the timeout, the pattern and the third switch; with the value as
/// it was given, and with what is behind it.
pub proof fn law_first_fault_is_reported(raw: RawConfig)
    ensures
        config::config_of(raw) matches Err(e) ==> e == (if !is_mode(raw.workspace_mode) {
            config::ConfigErrorView::WorkspaceMode { value: raw.workspace_mode->Some_0@ }
        } else if !is_switch(raw.maximize) {
            config::ConfigErrorView::Switch {
                variable: "MAXIMIZE"@,
                value: raw.maximize->Some_0@,
            }
        } else if !is_switch(raw.switch_to_workspace) {
            config::ConfigErrorView::Switch {
                variable: "SWITCH_TO_WORKSPACE"@,
                value: raw.switch_to_workspace->Some_0@,
            }
        } else if !is_timeout(raw.switch_verify_timeout_ms) {
            config::ConfigErrorView::VerifyTimeout {
                value: raw.switch_verify_timeout_ms->Some_0@,
                cause: config::number_fault(raw.switch_verify_timeout_ms->Some_0@),
            }
        } else if !is_pattern(raw.excluded_title_regex) {
            config::ConfigErrorView::TitleRegex {
                value: raw.excluded_title_regex->Some_0@,
                cause: config::regex_error_text(
                    config::compiled_regex(raw.excluded_title_regex->Some_0@)->Err_0,
                ),
            }
        } else {
            config::ConfigErrorView::Switch {
                variable: "JUMP_ON_EMPTY"@,
                value: raw.jump_on_empty->Some_0@,
            }
        }),
{
    law_switch("MAXIMIZE"@, raw.maximize);
    law_switch("SWITCH_TO_WORKSPACE"@, raw.switch_to_workspace);
    law_switch("JUMP_ON_EMPTY"@, raw.jump_on_empty);
    lemma_timeout(raw.switch_verify_timeout_ms);
}

/// What the operator reads of a refused configuration.
pub proof fn law_messages_of_refusals(
    variable: Seq<char>,
    value: Seq<char>,
    cause: Seq<char>,
    quoted: Seq<char>,
)
    ensures
        ({
            let e = config::ConfigErrorView::WorkspaceMode { value };
            &&& e.message(quoted) == "WORKSPACE_MODE"@ + ": unrecognized value "@ + quoted
                + "; expected one of: next-free, new-each, same"@
            &&& e.cause() is None
            &&& e.value() == value
        }),
        ({
            let e = config::ConfigErrorView::Switch { variable, value };
            &&& e.message(quoted) == variable + ": unrecognized value "@ + quoted
                + "; expected one of 0/1, true/false, yes/no, on/off (case-insensitive)"@
            &&& e.cause() is None
            &&& e.value() == value
        }),
        ({
            let e = config::ConfigErrorView::VerifyTimeout { value, cause };
            &&& e.message(quoted) == "SWITCH_VERIFY_TIMEOUT_MS"@ + ": "@ + quoted
                + " is not a valid u64"@
            &&& e.cause() == Some(cause)
            &&& e.value() == value
        }),
        ({
            let e = config::ConfigErrorView::TitleRegex { value, cause };
            &&& e.message(quoted) == "EXCLUDED_TITLE_REGEX"@ + ": "@ + quoted
                + " is not a valid regex"@
            &&& e.cause() == Some(cause)
            &&& e.value() == value
        }),
{
}

/// Each part is read from the variable of its name.
pub proof fn law_variables_by_name<F: Fn(&str) -> Option<String>>(get: F, raw: RawConfig)
    requires
        config::source_gives(get, raw),
    ensures
        call_ensures(get, ("WORKSPACE_MODE",), raw.workspace_mode),
        call_ensures(get, ("MAXIMIZE",), raw.maximize),
        call_ensures(get, ("SWITCH_TO_WORKSPACE",), raw.switch_to_workspace),
        call_ensures(get, ("SWITCH_VERIFY_TIMEOUT_MS",), raw.switch_verify_timeout_ms),
        call_ensures(get, ("EXCLUDED_APP_IDS",), raw.excluded_app_ids),
        call_ensures(get, ("EXCLUDED_TITLE_REGEX",), raw.excluded_title_regex),
        call_ensures(get, ("WORKSPACE_OUTPUT",), raw.workspace_output),
        call_ensures(get, ("JUMP_ON_EMPTY",), raw.jump_on_empty),
{
}

} // verus!
