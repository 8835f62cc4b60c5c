//! The runtime state of the updater, and the text file that keeps it.

use vstd::prelude::*;
use vstd::string::*;

use crate::decimal::{
    decimal, decimal_round_trip, decimal_text, decimal_value, is_digit, parse_decimal,
};
use crate::slot::{
    name_of, slot_from_name, slot_name, slot_name_round_trip, slot_named, OtaSlot,
};
use crate::text::{
    chars_of, concat, is_trimmed, lemma_first_index, lemma_split_first,
    lemma_split_single, position, same_text, split, split_at_each, trim, trimmed, trimmed_keeps,
};

verus! {

/// How far the build in the active slot is trusted.
#[derive(Debug, Clone, Copy, PartialEq, Eq, Structural)]
pub enum OtaBootState {
    /// It has been confirmed.
    Stable,
    /// It has been installed and not confirmed yet.
    Trial,
}

/// What the updater remembers between boots.
#[derive(Debug, Clone, Copy, PartialEq, Eq, Structural)]
pub struct OtaRuntimeState {
    /// The slot to boot from.
    pub active_slot: OtaSlot,
    /// The slot to go back to if the active one does not come up.
    pub fallback_slot: Option<OtaSlot>,
    /// How far the build in the active slot is trusted.
    pub boot_state: OtaBootState,
    /// How often the active slot has been tried.
    pub trial_attempts: u8,
}

/// The state of a device that has never been updated.
pub open spec fn initial_state() -> OtaRuntimeState {
    OtaRuntimeState {
        active_slot: OtaSlot::Legacy,
        fallback_slot: None,
        boot_state: OtaBootState::Stable,
        trial_attempts: 0,
    }
}

/// The key and the value that a line assigns.
///
/// White space around the line, the key and the value does not count. An empty line,
/// a line that starts with `#` and a line without `=` assign nothing.
pub open spec fn assignment(line: Seq<char>) -> Option<(Seq<char>, Seq<char>)> {
    let t = trimmed(line);
    if t.len() == 0 || t.first() == '#' {
        None
    } else {
        match t.index_of_first('=') {
            Some(i) => Some((trimmed(t.take(i)), trimmed(t.skip(i + 1)))),
            None => None,
        }
    }
}

/// The value of the last line that assigns `key`.
pub open spec fn value_of(lines: Seq<Seq<char>>, key: Seq<char>) -> Option<Seq<char>>
    decreases lines.len(),
{
    if lines.len() == 0 {
        None
    } else {
        match assignment(lines.last()) {
            Some((k, v)) => if k == key {
                Some(v)
            } else {
                value_of(lines.drop_last(), key)
            },
            None => value_of(lines.drop_last(), key),
        }
    }
}

/// The slot that the lines assign to `key`.
pub open spec fn slot_value(lines: Seq<Seq<char>>, key: Seq<char>) -> Option<OtaSlot> {
    match value_of(lines, key) {
        Some(v) => slot_named(v),
        None => None,
    }
}

/// The state that the content of a state file stands for. What is missing or
/// malformed takes its value from the initial state.
pub open spec fn state_of(content: Seq<char>) -> OtaRuntimeState {
    let lines = split_at_each(content, '\n');
    OtaRuntimeState {
        active_slot: match slot_value(lines, "ACTIVE_SLOT"@) {
            Some(slot) => slot,
            None => OtaSlot::Legacy,
        },
        fallback_slot: slot_value(lines, "FALLBACK_SLOT"@),
        boot_state: if value_of(lines, "BOOT_STATE"@) == Some("trial"@) {
            OtaBootState::Trial
        } else {
            OtaBootState::Stable
        },
        trial_attempts: match value_of(lines, "TRIAL_ATTEMPTS"@) {
            Some(v) => match decimal_value(v, u8::MAX as nat) {
                Some(n) => n as u8,
                None => 0,
            },
            None => 0,
        },
    }
}

/// One line of a state file, with its line feed.
pub open spec fn state_line(key: Seq<char>, value: Seq<char>) -> Seq<char> {
    key + "="@ + value + "\n"@
}

/// The name of a boot state.
pub open spec fn boot_state_name(boot_state: OtaBootState) -> Seq<char> {
    match boot_state {
        OtaBootState::Stable => "stable"@,
        OtaBootState::Trial => "trial"@,
    }
}

/// The name of the slot that is on trial, or nothing.
pub open spec fn pending_name(state: OtaRuntimeState) -> Seq<char> {
    match state.boot_state {
        OtaBootState::Trial => name_of(state.active_slot),
        OtaBootState::Stable => ""@,
    }
}

/// The name of the fallback slot, or nothing.
pub open spec fn fallback_name(state: OtaRuntimeState) -> Seq<char> {
    match state.fallback_slot {
        Some(slot) => name_of(slot),
        None => ""@,
    }
}

/// The content of the state file for a state.
pub open spec fn state_text(state: OtaRuntimeState) -> Seq<char> {
    state_line("ACTIVE_SLOT"@, name_of(state.active_slot)) + state_line(
        "BOOT_STATE"@,
        boot_state_name(state.boot_state),
    ) + state_line("PENDING_SLOT"@, pending_name(state)) + state_line(
        "FALLBACK_SLOT"@,
        fallback_name(state),
    ) + state_line("TRIAL_ATTEMPTS"@, decimal_text(state.trial_attempts as nat))
}

/// The state of a device that has never been updated.
pub fn default_runtime_state() -> (r: OtaRuntimeState)
    ensures
        r == initial_state(),
{
    OtaRuntimeState {
        active_slot: OtaSlot::Legacy,
        fallback_slot: None,
        boot_state: OtaBootState::Stable,
        trial_attempts: 0,
    }
}

/// The key and the value that a line assigns.
fn assigned<'a>(line: &'a str) -> (r: Option<(&'a str, &'a str)>)
    ensures
        r.deep_view() == assignment(line@),
{
    let t = trim(line);
    let cs = chars_of(t);
    if cs.len() == 0 || cs[0] == '#' {
        return None;
    }
    proof {
        assert(cs@.skip(0) =~= t@);
    }
    match position(&cs, 0, '=') {
        Some(i) => {
            let key = trim(t.substring_char(0, i));
            let value = trim(t.substring_char(i + 1, cs.len()));
            proof {
                assert(t@.subrange(0, i as int) =~= t@.take(i as int));
                assert(t@.subrange(i + 1, t@.len() as int) =~= t@.skip(i + 1));
            }
            Some((key, value))
        },
        None => None,
    }
}

/// The value of the last line that assigns `key`.
fn last_value<'a>(lines: &Vec<&'a str>, key: &str) -> (r: Option<&'a str>)
    ensures
        r.deep_view() == value_of(lines.deep_view(), key@),
{
    let mut n: usize = lines.len();
    let ghost all = lines.deep_view();
    proof {
        assert(all.take(n as int) =~= all);
    }
    while n > 0
        invariant
            n <= lines.len(),
            all == lines.deep_view(),
            value_of(all, key@) == value_of(all.take(n as int), key@),
        decreases n,
    {
        proof {
            assert(all.take(n as int).last() == lines[n - 1]@);
            assert(all.take(n as int).drop_last() =~= all.take(n - 1));
        }
        if let Some((k, v)) = assigned(lines[n - 1]) {
            if same_text(k, key) {
                return Some(v);
            }
        }
        n = n - 1;
    }
    None
}

/// The state that the content of a state file stands for.
pub fn parse_runtime_state(content: &str) -> (r: OtaRuntimeState)
    ensures
        r == state_of(content@),
{
    let lines = split(content, '\n');
    let active_slot = match last_value(&lines, "ACTIVE_SLOT") {
        Some(v) => match slot_from_name(v) {
            Some(slot) => slot,
            None => OtaSlot::Legacy,
        },
        None => OtaSlot::Legacy,
    };
    let fallback_slot = match last_value(&lines, "FALLBACK_SLOT") {
        Some(v) => slot_from_name(v),
        None => None,
    };
    let boot_state = match last_value(&lines, "BOOT_STATE") {
        Some(v) => if same_text(v, "trial") {
            OtaBootState::Trial
        } else {
            OtaBootState::Stable
        },
        None => OtaBootState::Stable,
    };
    let trial_attempts: u8 = match last_value(&lines, "TRIAL_ATTEMPTS") {
        Some(v) => match parse_decimal(v, 255) {
            Some(n) => n as u8,
            None => 0,
        },
        None => 0,
    };
    OtaRuntimeState { active_slot, fallback_slot, boot_state, trial_attempts }
}

/// Appends one line of a state file.
fn push_line(content: &mut String, key: &str, value: &str)
    ensures
        final(content)@ == old(content)@ + state_line(key@, value@),
{
    content.append(key);
    content.append("=");
    content.append(value);
    content.append("\n");
    assert(content@ =~= old(content)@ + state_line(key@, value@));
}

/// The content of the state file for a state.
pub fn runtime_state_text(state: &OtaRuntimeState) -> (r: String)
    ensures
        r@ == state_text(*state),
{
    let boot_state: &'static str = match state.boot_state {
        OtaBootState::Stable => "stable",
        OtaBootState::Trial => "trial",
    };
    let pending: &'static str = match state.boot_state {
        OtaBootState::Trial => slot_name(state.active_slot),
        OtaBootState::Stable => "",
    };
    let fallback: &'static str = match state.fallback_slot {
        Some(slot) => slot_name(slot),
        None => "",
    };
    let attempts = decimal(state.trial_attempts);
    let mut content = String::new();
    push_line(&mut content, "ACTIVE_SLOT", slot_name(state.active_slot));
    push_line(&mut content, "BOOT_STATE", boot_state);
    push_line(&mut content, "PENDING_SLOT", pending);
    push_line(&mut content, "FALLBACK_SLOT", fallback);
    push_line(&mut content, "TRIAL_ATTEMPTS", attempts.as_str());
    assert(content@ =~= state_text(*state));
    content
}

/// Why a file could not be read.
#[derive(Debug, PartialEq, Eq)]
pub enum ReadFailure {
    /// There is no such file.
    NotFound,
    /// Anything else, in the words of the system.
    Other(String),
}

/// The state that reading the state file gives: a missing file is the initial state.
pub open spec fn read_state(read: Result<Seq<char>, Option<Seq<char>>>) -> Result<
    OtaRuntimeState,
    Seq<char>,
> {
    match read {
        Ok(content) => Ok(state_of(content)),
        Err(None) => Ok(initial_state()),
        Err(Some(e)) => Err("Failed to read OTA state file: "@ + e),
    }
}

/// The outcome of a read as a value: the content, or why there is none (`None` for a
/// file that does not exist).
pub open spec fn read_outcome(read: Result<String, ReadFailure>) -> Result<
    Seq<char>,
    Option<Seq<char>>,
> {
    match read {
        Ok(content) => Ok(content@),
        Err(ReadFailure::NotFound) => Err(None),
        Err(ReadFailure::Other(e)) => Err(Some(e@)),
    }
}

/// A result with its error as a sequence of characters.
pub open spec fn with_error_text<T>(r: Result<T, String>) -> Result<T, Seq<char>> {
    match r {
        Ok(v) => Ok(v),
        Err(e) => Err(e@),
    }
}

/// The runtime state, by what reading the state file gave.
pub fn read_runtime_state(read: Result<String, ReadFailure>) -> (r: Result<OtaRuntimeState, String>)
    ensures
        with_error_text(r) == read_state(read_outcome(read)),
        match read {
            Ok(content) => r == Ok::<OtaRuntimeState, String>(state_of(content@)),
            Err(ReadFailure::NotFound) => r == Ok::<OtaRuntimeState, String>(initial_state()),
            Err(ReadFailure::Other(e)) => r is Err && r->Err_0@
                == "Failed to read OTA state file: "@ + e@,
        },
{
    match read {
        Ok(content) => Ok(parse_runtime_state(content.as_str())),
        Err(ReadFailure::NotFound) => Ok(default_runtime_state()),
        Err(ReadFailure::Other(e)) => Err(concat("Failed to read OTA state file: ", e.as_str())),
    }
}

/// Whether `key` can stand before the `=` of a line and be read back.
spec fn plain_key(key: Seq<char>) -> bool {
    &&& key.len() > 0
    &&& is_trimmed(key)
    &&& key.first() != '#'
    &&& !key.contains('=')
    &&& !key.contains('\n')
}

/// Whether `value` can stand after the `=` of a line and be read back.
spec fn plain_value(value: Seq<char>) -> bool {
    is_trimmed(value) && !value.contains('\n')
}

proof fn lemma_line(key: Seq<char>, value: Seq<char>, rest: Seq<char>)
    requires
        plain_key(key),
        plain_value(value),
    ensures
        assignment(key + "="@ + value) == Some((key, value)),
        split_at_each(state_line(key, value) + rest, '\n') == seq![key + "="@ + value]
            + split_at_each(rest, '\n'),
{
    reveal_strlit("=");
    reveal_strlit("\n");
    let line = key + "="@ + value;
    let n = key.len() as int;
    assert(line[n] == '=');
    assert(line.first() == key.first());
    assert(value.len() > 0 ==> line.last() == value.last());
    assert(value.len() == 0 ==> line.last() == '=');
    assert(is_trimmed(line));
    trimmed_keeps(line);
    assert forall|j: int| 0 <= j < n implies line[j] != '=' by {
        assert(line[j] == key[j]);
    }
    lemma_first_index(line, '=', n);
    assert(line.take(n) =~= key);
    assert(line.skip(n + 1) =~= value);
    trimmed_keeps(key);
    trimmed_keeps(value);
    assert(!line.contains('\n')) by {
        if line.contains('\n') {
            let j = choose|j: int| 0 <= j < line.len() && line[j] == '\n';
            if j < n {
                assert(key[j] == '\n');
            } else if j > n {
                assert(value[j - n - 1] == '\n');
            }
        }
    }
    lemma_split_first(line, rest, '\n');
    assert(state_line(key, value) + rest =~= line + seq!['\n'] + rest);
}

proof fn lemma_keys()
    ensures
        plain_key("ACTIVE_SLOT"@),
        plain_key("BOOT_STATE"@),
        plain_key("PENDING_SLOT"@),
        plain_key("FALLBACK_SLOT"@),
        plain_key("TRIAL_ATTEMPTS"@),
        "ACTIVE_SLOT"@ != "BOOT_STATE"@,
        "ACTIVE_SLOT"@ != "PENDING_SLOT"@,
        "ACTIVE_SLOT"@ != "FALLBACK_SLOT"@,
        "ACTIVE_SLOT"@ != "TRIAL_ATTEMPTS"@,
        "BOOT_STATE"@ != "PENDING_SLOT"@,
        "BOOT_STATE"@ != "FALLBACK_SLOT"@,
        "BOOT_STATE"@ != "TRIAL_ATTEMPTS"@,
        "FALLBACK_SLOT"@ != "TRIAL_ATTEMPTS"@,
{
    reveal_strlit("ACTIVE_SLOT");
    reveal_strlit("BOOT_STATE");
    reveal_strlit("PENDING_SLOT");
    reveal_strlit("FALLBACK_SLOT");
    reveal_strlit("TRIAL_ATTEMPTS");
    assert("ACTIVE_SLOT"@[0] == 'A');
    assert("BOOT_STATE"@[0] == 'B');
    assert("PENDING_SLOT"@[0] == 'P');
    assert("FALLBACK_SLOT"@[0] == 'F');
    assert("TRIAL_ATTEMPTS"@[0] == 'T');
    assert("ACTIVE_SLOT"@.last() == 'T');
    assert("BOOT_STATE"@.last() == 'E');
    assert("PENDING_SLOT"@.last() == 'T');
    assert("FALLBACK_SLOT"@.last() == 'T');
    assert("TRIAL_ATTEMPTS"@.last() == 'S');
}

proof fn lemma_values(state: OtaRuntimeState)
    ensures
        plain_value(name_of(state.active_slot)),
        plain_value(boot_state_name(state.boot_state)),
        plain_value(pending_name(state)),
        plain_value(fallback_name(state)),
        plain_value(decimal_text(state.trial_attempts as nat)),
        slot_named(""@) is None,
        "stable"@ != "trial"@,
{
    reveal_strlit("legacy");
    reveal_strlit("slot-a");
    reveal_strlit("slot-b");
    reveal_strlit("stable");
    reveal_strlit("trial");
    reveal_strlit("");
    slot_name_round_trip(OtaSlot::Legacy);
    slot_name_round_trip(OtaSlot::SlotA);
    slot_name_round_trip(OtaSlot::SlotB);
    assert("stable"@[0] == 's' && "stable"@.last() == 'e');
    assert("trial"@[0] == 't' && "trial"@.last() == 'l');
    trimmed_keeps(""@);
    let digits = decimal_text(state.trial_attempts as nat);
    decimal_round_trip(state.trial_attempts as nat, u8::MAX as nat);
    assert(is_digit(digits[0]) && is_digit(digits[digits.len() - 1]));
    if digits.contains('\n') {
        let j = choose|j: int| 0 <= j < digits.len() && digits[j] == '\n';
        assert(is_digit(digits[j]));
    }
}

/// Reading a state file back gives the state that was written.
pub proof fn state_round_trip(state: OtaRuntimeState)
    ensures
        state_of(state_text(state)) == state,
{
    lemma_keys();
    lemma_values(state);
    let a = name_of(state.active_slot);
    let b = boot_state_name(state.boot_state);
    let p = pending_name(state);
    let f = fallback_name(state);
    let t = decimal_text(state.trial_attempts as nat);
    let rest5 = Seq::<char>::empty();
    let rest4 = state_line("TRIAL_ATTEMPTS"@, t) + rest5;
    let rest3 = state_line("FALLBACK_SLOT"@, f) + rest4;
    let rest2 = state_line("PENDING_SLOT"@, p) + rest3;
    let rest1 = state_line("BOOT_STATE"@, b) + rest2;
    assert(state_text(state) =~= state_line("ACTIVE_SLOT"@, a) + rest1);
    lemma_line("ACTIVE_SLOT"@, a, rest1);
    lemma_line("BOOT_STATE"@, b, rest2);
    lemma_line("PENDING_SLOT"@, p, rest3);
    lemma_line("FALLBACK_SLOT"@, f, rest4);
    lemma_line("TRIAL_ATTEMPTS"@, t, rest5);
    lemma_split_single(rest5, '\n');
    let l1 = "ACTIVE_SLOT"@ + "="@ + a;
    let l2 = "BOOT_STATE"@ + "="@ + b;
    let l3 = "PENDING_SLOT"@ + "="@ + p;
    let l4 = "FALLBACK_SLOT"@ + "="@ + f;
    let l5 = "TRIAL_ATTEMPTS"@ + "="@ + t;
    let lines = split_at_each(state_text(state), '\n');
    assert(lines =~= seq![l1, l2, l3, l4, l5, rest5]);
    let p5 = lines.drop_last();
    let p4 = p5.drop_last();
    let p3 = p4.drop_last();
    let p2 = p3.drop_last();
    let p1 = p2.drop_last();
    assert(p5.last() == l5 && p4.last() == l4 && p3.last() == l3 && p2.last() == l2 && p1.last()
        == l1);
    trimmed_keeps(rest5);
    assert(assignment(rest5) is None);
    assert forall|key: Seq<char>| #[trigger]
        value_of(lines, key) == value_of(p5, key) by {}
    assert(value_of(lines, "TRIAL_ATTEMPTS"@) == Some(t));
    assert(value_of(p5, "FALLBACK_SLOT"@) == value_of(p4, "FALLBACK_SLOT"@));
    assert(value_of(lines, "FALLBACK_SLOT"@) == Some(f));
    assert(value_of(p5, "BOOT_STATE"@) == value_of(p4, "BOOT_STATE"@));
    assert(value_of(p4, "BOOT_STATE"@) == value_of(p3, "BOOT_STATE"@));
    assert(value_of(p3, "BOOT_STATE"@) == value_of(p2, "BOOT_STATE"@));
    assert(value_of(lines, "BOOT_STATE"@) == Some(b));
    assert(value_of(p5, "ACTIVE_SLOT"@) == value_of(p4, "ACTIVE_SLOT"@));
    assert(value_of(p4, "ACTIVE_SLOT"@) == value_of(p3, "ACTIVE_SLOT"@));
    assert(value_of(p3, "ACTIVE_SLOT"@) == value_of(p2, "ACTIVE_SLOT"@));
    assert(value_of(p2, "ACTIVE_SLOT"@) == value_of(p1, "ACTIVE_SLOT"@));
    assert(value_of(lines, "ACTIVE_SLOT"@) == Some(a));
    slot_name_round_trip(state.active_slot);
    if state.fallback_slot is Some {
        slot_name_round_trip(state.fallback_slot->0);
    }
    decimal_round_trip(state.trial_attempts as nat, u8::MAX as nat);
}

/// An empty state file stands for the initial state, as a missing one does.
pub proof fn empty_file_is_initial()
    ensures
        state_of(Seq::empty()) == initial_state(),
        read_state(Ok(Seq::empty())) == read_state(Err(None)),
{
    let nothing = Seq::<char>::empty();
    lemma_split_single(nothing, '\n');
    trimmed_keeps(nothing);
    let lines = seq![nothing];
    assert(lines.last() == nothing);
    assert(lines.drop_last() =~= Seq::empty());
    assert(assignment(nothing) is None);
    assert forall|key: Seq<char>| #[trigger] value_of(lines, key) is None by {
        assert(value_of(lines.drop_last(), key) is None);
    }
}

/// Of several lines that assign one key the last counts, and a line that assigns
/// nothing, such as a comment, changes nothing.
pub proof fn last_assignment_counts(lines: Seq<Seq<char>>, line: Seq<char>, key: Seq<char>)
    ensures
        value_of(lines.push(line), key) == match assignment(line) {
            Some((k, v)) => if k == key {
                Some(v)
            } else {
                value_of(lines, key)
            },
            None => value_of(lines, key),
        },
{
    assert(lines.push(line).drop_last() =~= lines);
}

/// A line assigns what stands behind its first `=` to what stands before it, without the
/// white space around either.
pub proof fn lines_assign_at_first_equals(line: Seq<char>, key: Seq<char>, value: Seq<char>)
    requires
        trimmed(line) == key + seq!['='] + value,
        forall|i: int| 0 <= i < key.len() ==> key[i] != '=',
        key.len() > 0 ==> key[0] != '#',
    ensures
        assignment(line) == Some((trimmed(key), trimmed(value))),
{
    let t = trimmed(line);
    let n = key.len() as int;
    assert(t[n] == '=');
    assert forall|j: int| 0 <= j < n implies t[j] != '=' by {
        assert(t[j] == key[j]);
    }
    lemma_first_index(t, '=', n);
    assert(t.take(n) =~= key);
    assert(t.skip(n + 1) =~= value);
    if n > 0 {
        assert(t[0] == key[0]);
    }
}

/// A line that is empty, starts with `#` or holds no `=` assigns nothing.
pub proof fn other_lines_assign_nothing(line: Seq<char>)
    requires
        ({
            let t = trimmed(line);
            t.len() == 0 || t[0] == '#' || !t.contains('=')
        }),
    ensures
        assignment(line) is None,
{
    trimmed(line).index_of_first_ensures('=');
}

/// No line, no value: what lines assign is what `last_assignment_counts` adds up from
/// nothing.
pub proof fn nothing_assigned_by_no_lines(key: Seq<char>)
    ensures
        value_of(Seq::empty(), key) is None,
{
}

/// What a state file says of each part of the state: the last line for its key counts,
/// and what is missing or malformed is as on a device that has never been updated.
pub proof fn state_is_what_lines_say(content: Seq<char>)
    ensures
        ({
            let lines = split_at_each(content, '\n');
            let s = state_of(content);
            let active = value_of(lines, "ACTIVE_SLOT"@);
            let fallback = value_of(lines, "FALLBACK_SLOT"@);
            let attempts = value_of(lines, "TRIAL_ATTEMPTS"@);
            &&& active is Some && slot_named(active->0) is Some ==> Some(s.active_slot)
                == slot_named(active->0)
            &&& active is None || slot_named(active->0) is None ==> s.active_slot
                == OtaSlot::Legacy
            &&& fallback is Some ==> s.fallback_slot == slot_named(fallback->0)
            &&& fallback is None ==> s.fallback_slot is None
            &&& s.boot_state == OtaBootState::Trial <==> value_of(lines, "BOOT_STATE"@) == Some(
                "trial"@,
            )
            &&& attempts is Some && decimal_value(attempts->0, 255) is Some
                ==> s.trial_attempts == decimal_value(attempts->0, 255)->0
            &&& attempts is None || decimal_value(attempts->0, 255) is None ==> s.trial_attempts
                == 0
        }),
{
    let lines = split_at_each(content, '\n');
    let attempts = value_of(lines, "TRIAL_ATTEMPTS"@);
    if attempts is Some && decimal_value(attempts->0, 255) is Some {
        assert(decimal_value(attempts->0, 255)->0 <= 255);
    }
}

/// The text that records a state, letter for letter.
pub proof fn state_text_in_full(state: OtaRuntimeState)
    ensures
        ({
            let active = match state.active_slot {
                OtaSlot::Legacy => "legacy"@,
                OtaSlot::SlotA => "slot-a"@,
                OtaSlot::SlotB => "slot-b"@,
            };
            let fallback = match state.fallback_slot {
                None => Seq::empty(),
                Some(OtaSlot::Legacy) => "legacy"@,
                Some(OtaSlot::SlotA) => "slot-a"@,
                Some(OtaSlot::SlotB) => "slot-b"@,
            };
            let (boot, pending) = if state.boot_state == OtaBootState::Trial {
                ("trial"@, active)
            } else {
                ("stable"@, Seq::empty())
            };
            state_text(state) == "ACTIVE_SLOT="@ + active + "\nBOOT_STATE="@ + boot
                + "\nPENDING_SLOT="@ + pending + "\nFALLBACK_SLOT="@ + fallback
                + "\nTRIAL_ATTEMPTS="@ + decimal_text(state.trial_attempts as nat) + "\n"@
        }),
{
    reveal_strlit("");
    reveal_strlit("=");
    reveal_strlit("\n");
    reveal_strlit("ACTIVE_SLOT");
    reveal_strlit("BOOT_STATE");
    reveal_strlit("PENDING_SLOT");
    reveal_strlit("FALLBACK_SLOT");
    reveal_strlit("TRIAL_ATTEMPTS");
    reveal_strlit("ACTIVE_SLOT=");
    reveal_strlit("\nBOOT_STATE=");
    reveal_strlit("\nPENDING_SLOT=");
    reveal_strlit("\nFALLBACK_SLOT=");
    reveal_strlit("\nTRIAL_ATTEMPTS=");
    assert("ACTIVE_SLOT="@ =~= "ACTIVE_SLOT"@ + "="@);
    assert("\nBOOT_STATE="@ =~= "\n"@ + "BOOT_STATE"@ + "="@);
    assert("\nPENDING_SLOT="@ =~= "\n"@ + "PENDING_SLOT"@ + "="@);
    assert("\nFALLBACK_SLOT="@ =~= "\n"@ + "FALLBACK_SLOT"@ + "="@);
    assert("\nTRIAL_ATTEMPTS="@ =~= "\n"@ + "TRIAL_ATTEMPTS"@ + "="@);
    let a = name_of(state.active_slot);
    let b = boot_state_name(state.boot_state);
    let p = pending_name(state);
    let f = fallback_name(state);
    let t = decimal_text(state.trial_attempts as nat);
    assert(""@ =~= Seq::empty());
    assert(state_text(state) =~= "ACTIVE_SLOT="@ + a + "\nBOOT_STATE="@ + b + "\nPENDING_SLOT="@
        + p + "\nFALLBACK_SLOT="@ + f + "\nTRIAL_ATTEMPTS="@ + t + "\n"@);
}

/// A file that can be read gives what it says, whatever it holds; a missing one gives the
/// state of a device that has never been updated; any other failure is an error.
pub proof fn only_unreadable_files_are_errors(content: Seq<char>, e: Seq<char>)
    ensures
        read_state(Ok(content)) == Ok::<OtaRuntimeState, Seq<char>>(state_of(content)),
        read_state(Err(None)) == Ok::<OtaRuntimeState, Seq<char>>(
            OtaRuntimeState {
                active_slot: OtaSlot::Legacy,
                fallback_slot: None,
                boot_state: OtaBootState::Stable,
                trial_attempts: 0,
            },
        ),
        read_state(Err(Some(e))) == Err::<OtaRuntimeState, Seq<char>>(
            "Failed to read OTA state file: "@ + e,
        ),
{
}

} // verus!
