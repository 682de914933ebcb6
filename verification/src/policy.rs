//! The local policy on outgoing messages.

use crate::command::PolicyCommand;
use crate::command::PolicyCommandView;
use crate::text;
use crate::text::byte_len;
use crate::text::cat2;
use crate::text::cat3;
use crate::text::cat5;
use crate::text::char_is_alnum;
use crate::text::char_is_control;
use crate::text::char_is_letter;
use crate::text::char_is_white;
use crate::text::chars_have_prefix;
use crate::text::chars_of;
use crate::text::count_text;
use crate::text::decimal_text;
use crate::text::has_char;
use crate::text::Lines;
use crate::text::split_chars;
use crate::text::string_of;
use crate::text::Stripped;
use crate::text::text_occurs;
use crate::text::trim_end_at;
use crate::text::trim_range;
use std::collections::VecDeque;
use vstd::prelude::*;
use vstd::utf8::*;

verus! {

/// How strict the policy is.
#[derive(Debug, Clone, Copy, PartialEq, Eq, Structural)]
pub enum PolicyMode {
    Strict,
    Relaxed,
}

/// The rules for outgoing messages, and when the latest of them were sent.
pub struct MessagePolicy {
    pub mode: PolicyMode,
    pub max_chars: usize,
    pub reject_multiline: bool,
    pub reject_control_chars: bool,
    pub reject_links: bool,
    pub max_messages_per_window: usize,
    pub window_ms: u64,
    pub sent_timestamps_ms: VecDeque<u64>,
}

/// The plain values held by a [`MessagePolicy`].
#[verifier::ext_equal]
pub struct MessagePolicyView {
    pub mode: PolicyMode,
    pub max_chars: usize,
    pub reject_multiline: bool,
    pub reject_control_chars: bool,
    pub reject_links: bool,
    pub max_messages_per_window: usize,
    pub window_ms: u64,
    pub sent_timestamps_ms: Seq<u64>,
}

impl View for MessagePolicy {
    type V = MessagePolicyView;

    open spec fn view(&self) -> MessagePolicyView {
        MessagePolicyView {
            mode: self.mode,
            max_chars: self.max_chars,
            reject_multiline: self.reject_multiline,
            reject_control_chars: self.reject_control_chars,
            reject_links: self.reject_links,
            max_messages_per_window: self.max_messages_per_window,
            window_ms: self.window_ms,
            sent_timestamps_ms: self.sent_timestamps_ms@,
        }
    }
}

/// The strict policy before any message.
pub open spec fn strict_policy() -> MessagePolicyView {
    MessagePolicyView {
        mode: PolicyMode::Strict,
        max_chars: 512,
        reject_multiline: true,
        reject_control_chars: true,
        reject_links: true,
        max_messages_per_window: 8,
        window_ms: 10_000,
        sent_timestamps_ms: Seq::empty(),
    }
}

/// The relaxed policy before any message.
pub open spec fn relaxed_policy() -> MessagePolicyView {
    MessagePolicyView {
        mode: PolicyMode::Relaxed,
        max_chars: 1024,
        reject_multiline: true,
        reject_control_chars: true,
        reject_links: true,
        max_messages_per_window: 16,
        window_ms: 10_000,
        sent_timestamps_ms: Seq::empty(),
    }
}

/// The name of a mode.
pub open spec fn mode_word(mode: PolicyMode) -> Seq<char> {
    match mode {
        PolicyMode::Strict => "strict"@,
        PolicyMode::Relaxed => "relaxed"@,
    }
}

impl MessagePolicy {
    /// The strict policy.
    pub fn strict() -> (res: MessagePolicy)
        ensures
            res@ == strict_policy(),
    {
        MessagePolicy {
            mode: PolicyMode::Strict,
            max_chars: 512,
            reject_multiline: true,
            reject_control_chars: true,
            reject_links: true,
            max_messages_per_window: 8,
            window_ms: 10_000,
            sent_timestamps_ms: VecDeque::new(),
        }
    }

    /// The relaxed policy.
    pub fn relaxed() -> (res: MessagePolicy)
        ensures
            res@ == relaxed_policy(),
    {
        MessagePolicy {
            mode: PolicyMode::Relaxed,
            max_chars: 1024,
            reject_multiline: true,
            reject_control_chars: true,
            reject_links: true,
            max_messages_per_window: 16,
            window_ms: 10_000,
            sent_timestamps_ms: VecDeque::new(),
        }
    }

    /// The name of the mode.
    pub fn mode_name(&self) -> (res: &'static str)
        ensures
            res@ == mode_word(self.mode),
    {
        match self.mode {
            PolicyMode::Strict => "strict",
            PolicyMode::Relaxed => "relaxed",
        }
    }
}

/// A text holds a control character.
pub open spec fn has_control(text: Seq<char>) -> bool {
    exists|i: int| 0 <= i < text.len() && text::is_control(#[trigger] text[i])
}

/// Decide whether a text holds a control character.
pub fn contains_rejected_control_char(text: &str) -> (res: bool)
    ensures
        res == has_control(text@),
{
    let chars = chars_of(text);
    let mut i: usize = 0;
    while i < chars.len()
        invariant
            chars@ == text@,
            i <= chars@.len(),
            forall|j: int| 0 <= j < i ==> !text::is_control(#[trigger] text@[j]),
        decreases chars.len() - i,
    {
        if char_is_control(chars[i]) {
            assert(text::is_control(text@[i as int]));
            return true;
        }
        i = i + 1;
    }
    false
}

/// A range of a text is one of its words: a longest run without white space.
pub open spec fn is_word(text: Seq<char>, i: int, j: int) -> bool {
    &&& 0 <= i < j <= text.len()
    &&& forall|k: int| i <= k < j ==> !text::is_white(#[trigger] text[k])
    &&& (i == 0 || text::is_white(text[i - 1]))
    &&& (j == text.len() || text::is_white(text[j]))
}

/// A text holds a word that looks like a link.
pub open spec fn has_link(text: Seq<char>) -> bool {
    exists|i: int, j: int| #[trigger] is_word(text, i, j) && link_like(text.subrange(i, j))
}

/// Decide whether a text holds a word that looks like a link.
pub fn contains_link_like_token(text: &str) -> (res: bool)
    ensures
        res == has_link(text@),
{
    let chars = chars_of(text);
    let n: usize = chars.len();
    let mut start: usize = 0;
    let mut i: usize = 0;
    while i < n
        invariant
            chars@ == text@,
            n == text@.len(),
            start <= i <= n,
            start == 0 || text::is_white(text@[start - 1]),
            forall|k: int| start <= k < i ==> !text::is_white(#[trigger] text@[k]),
            forall|a: int, b: int|
                #[trigger] is_word(text@, a, b) && b < start ==> !link_like(text@.subrange(a, b)),
        decreases n - i,
    {
        if char_is_white(chars[i]) {
            if start < i {
                let word = string_of(&chars, start, i);
                if is_link_like_token(word.as_str()) {
                    assert(is_word(text@, start as int, i as int));
                    return true;
                }
            }
            proof {
                assert forall|a: int, b: int| #[trigger]
                    is_word(text@, a, b) && b < i + 1 implies !link_like(text@.subrange(a, b)) by {
                    if b >= start {
                        if b < i {
                            assert(text::is_white(text@[b]));
                        }
                        if a < start {
                            assert(!text::is_white(text@[start - 1]));
                        }
                        if a > start {
                            assert(text::is_white(text@[a - 1]));
                        }
                    }
                }
            }
            start = i + 1;
        }
        i = i + 1;
    }
    if start < n {
        let word = string_of(&chars, start, n);
        if is_link_like_token(word.as_str()) {
            assert(is_word(text@, start as int, n as int));
            return true;
        }
    }
    proof {
        assert forall|a: int, b: int| #[trigger] is_word(text@, a, b) implies !link_like(
            text@.subrange(a, b),
        ) by {
            if b >= start {
                if b < n {
                    assert(text::is_white(text@[b]));
                }
                if a < start {
                    assert(!text::is_white(text@[start - 1]));
                }
                if a > start {
                    assert(text::is_white(text@[a - 1]));
                }
            }
        }
    }
    false
}

/// The ASCII lower case of a text.
pub open spec fn lowered(s: Seq<char>) -> Seq<char> {
    s.map_values(|c: char| lower_char(c))
}

/// The ASCII lower case of a character.
pub open spec fn lower_char(c: char) -> char {
    if 'A' <= c <= 'Z' {
        ((c as u8) + 32) as u8 as char
    } else {
        c
    }
}

/// A character ends the host part of a link.
pub open spec fn ends_host(c: char) -> bool {
    c == '/' || c == '?' || c == '#'
}

/// The number of characters in front of the path, the query or the fragment.
pub open spec fn host_len(s: Seq<char>) -> nat
    decreases s.len(),
{
    if s.len() == 0 || ends_host(s[0]) {
        0
    } else {
        1 + host_len(s.drop_first())
    }
}

/// The token without what wraps it, in lower case.
pub open spec fn bare_token(token: Seq<char>) -> Seq<char> {
    lowered(text::trim_end_by(text::trim_by(token, Stripped::Wrapping), Stripped::Stop))
}

/// A token looks like a link.
pub open spec fn link_like(token: Seq<char>) -> bool {
    let lower = bare_token(token);
    &&& lower.len() > 0
    &&& {
        ||| "http://"@.is_prefix_of(lower)
        ||| "https://"@.is_prefix_of(lower)
        ||| "www."@.is_prefix_of(lower)
        ||| lower.contains('@') && lower.contains('.')
        ||| domain_like(lower.take(host_len(lower) as int))
    }
}

/// Lower the characters of a range.
fn lower_range(chars: &Vec<char>, from: usize, to: usize) -> (res: Vec<char>)
    requires
        from <= to <= chars@.len(),
    ensures
        res@ == lowered(chars@.subrange(from as int, to as int)),
{
    let mut res: Vec<char> = Vec::new();
    let mut i: usize = from;
    while i < to
        invariant
            from <= i <= to <= chars@.len(),
            res@.len() == i - from,
            forall|j: int| 0 <= j < res@.len() ==> res@[j] == lower_char(chars@[from + j]),
        decreases to - i,
    {
        let c: char = chars[i];
        if 'A' <= c && c <= 'Z' {
            let lower: u8 = (c as u8) + 32;
            res.push(lower as char);
        } else {
            res.push(c);
        }
        i = i + 1;
    }
    assert(res@ =~= lowered(chars@.subrange(from as int, to as int)));
    res
}

/// The end of the host part.
fn host_end(chars: &Vec<char>) -> (res: usize)
    ensures
        res == host_len(chars@),
        res <= chars@.len(),
{
    let n: usize = chars.len();
    let mut i: usize = 0;
    assert(chars@.subrange(0, n as int) =~= chars@);
    while i < n
        invariant
            i <= n == chars@.len(),
            host_len(chars@) == i + host_len(chars@.subrange(i as int, n as int)),
        decreases n - i,
    {
        let c: char = chars[i];
        if c == '/' || c == '?' || c == '#' {
            return i;
        }
        assert(chars@.subrange(i as int, n as int).drop_first() =~= chars@.subrange(
            i + 1,
            n as int,
        ));
        i = i + 1;
    }
    n
}

/// Decide whether a token looks like a link.
pub fn is_link_like_token(token: &str) -> (res: bool)
    ensures
        res == link_like(token@),
{
    let chars = chars_of(token);
    let (i, j) = trim_range(&chars, Stripped::Wrapping);
    let end: usize = trim_end_at(&chars, i, j, Stripped::Stop);
    let lower = lower_range(&chars, i, end);
    if lower.len() == 0 {
        return false;
    }
    if chars_have_prefix(&lower, &chars_of("http://")) || chars_have_prefix(
        &lower,
        &chars_of("https://"),
    ) || chars_have_prefix(&lower, &chars_of("www.")) {
        return true;
    }
    if has_char(&lower, '@') && has_char(&lower, '.') {
        return true;
    }
    let host = string_of(&lower, 0, host_end(&lower));
    assert(host@ == lower@.take(host_len(lower@) as int));
    is_domain_like(host.as_str())
}

/// A text consists of ASCII letters.
pub open spec fn all_letters(s: Seq<char>) -> bool {
    forall|i: int| 0 <= i < s.len() ==> text::is_letter(#[trigger] s[i])
}

/// A label of a domain name.
pub open spec fn label_like(label: Seq<char>) -> bool {
    &&& label.len() > 0
    &&& encode_utf8(label).len() <= 63
    &&& forall|i: int| 0 <= i < label.len() ==> text::is_alnum(#[trigger] label[i]) || label[i] == '-'
    &&& label[0] != '-'
    &&& label.last() != '-'
}

/// A host looks like a domain name: at least two labels, the last of them of 2 to 24 letters.
pub open spec fn domain_like(host: Seq<char>) -> bool {
    let labels = text::split_on(host, '.');
    &&& host.contains('.')
    &&& !text::occurs_in(".."@, host)
    &&& host[0] != '.'
    &&& host.last() != '.'
    &&& labels.len() >= 2
    &&& 2 <= encode_utf8(labels.last()).len() <= 24
    &&& all_letters(labels.last())
    &&& forall|i: int| 0 <= i < labels.len() ==> label_like(#[trigger] labels[i])
}

/// Decide whether a text consists of ASCII letters.
fn has_letters(s: &str) -> (res: bool)
    ensures
        res == all_letters(s@),
{
    let chars = chars_of(s);
    let mut i: usize = 0;
    while i < chars.len()
        invariant
            chars@ == s@,
            i <= chars@.len(),
            forall|j: int| 0 <= j < i ==> text::is_letter(#[trigger] s@[j]),
        decreases chars.len() - i,
    {
        if !char_is_letter(chars[i]) {
            assert(!text::is_letter(s@[i as int]));
            return false;
        }
        i = i + 1;
    }
    true
}

/// Decide whether a text is a label of a domain name.
fn is_label_like(label: &str) -> (res: bool)
    ensures
        res == label_like(label@),
{
    let chars = chars_of(label);
    let n: usize = chars.len();
    if n == 0 || byte_len(label) > 63 || chars[0] == '-' || chars[n - 1] == '-' {
        return false;
    }
    let mut i: usize = 0;
    while i < n
        invariant
            chars@ == label@,
            n == label@.len(),
            i <= n,
            forall|j: int| 0 <= j < i ==> text::is_alnum(#[trigger] label@[j]) || label@[j] == '-',
        decreases n - i,
    {
        let c: char = chars[i];
        if !(char_is_alnum(c) || c == '-') {
            assert(!(text::is_alnum(label@[i as int]) || label@[i as int] == '-'));
            return false;
        }
        i = i + 1;
    }
    true
}

/// Decide whether a host looks like a domain name.
pub fn is_domain_like(host: &str) -> (res: bool)
    ensures
        res == domain_like(host@),
{
    let chars = chars_of(host);
    let n: usize = chars.len();
    if !has_char(&chars, '.') || text_occurs("..", host) {
        return false;
    }
    if chars[0] == '.' || chars[n - 1] == '.' {
        return false;
    }
    let labels = split_chars(&chars, '.');
    let count: usize = labels.len();
    assert(text::texts(labels@).len() == count);
    if count < 2 {
        return false;
    }
    let tld = &labels[count - 1];
    assert(tld@ == text::texts(labels@).last());
    let size: usize = byte_len(tld.as_str());
    if size < 2 || size > 24 || !has_letters(tld.as_str()) {
        return false;
    }
    let mut i: usize = 0;
    while i < count
        invariant
            count == labels@.len(),
            text::texts(labels@) == text::split_on(host@, '.'),
            i <= count,
            forall|j: int| 0 <= j < i ==> label_like(#[trigger] text::texts(labels@)[j]),
        decreases count - i,
    {
        if !is_label_like(labels[i].as_str()) {
            assert(!label_like(text::texts(labels@)[i as int]));
            return false;
        }
        i = i + 1;
    }
    true
}

/// Why the text of a message is refused, if it is.
pub open spec fn text_rejection(text: Seq<char>, p: MessagePolicyView) -> Option<Seq<char>> {
    if text.len() == 0 {
        Some(
            "message rejected by local policy\n\nreason:\n  empty messages are not allowed"@,
        )
    } else if text.len() > p.max_chars {
        Some(
            "message rejected by local policy\n\nreason:\n  message is too long: "@ + text::decimal(
                text.len(),
            ) + " chars, max "@ + text::decimal(p.max_chars as nat) + " chars"@,
        )
    } else if p.reject_multiline && (text.contains('\n') || text.contains('\r')) {
        Some(
            "message rejected by local policy\n\nreason:\n  multiline input is not allowed"@,
        )
    } else if p.reject_control_chars && has_control(text) {
        Some(
            "message rejected by local policy\n\nreason:\n  control characters are not allowed"@,
        )
    } else if p.reject_links && has_link(text) {
        Some(
            "message rejected by local policy\n\nreason:\n  links are not allowed in "@
                + mode_word(p.mode) + " mode"@,
        )
    } else {
        None
    }
}

/// Why a message is refused for coming too fast.
pub open spec fn rate_rejection(p: MessagePolicyView) -> Seq<char> {
    "message rejected by local policy\n\nreason:\n  paste/rate burst detected: max "@ + text::decimal(
        p.max_messages_per_window as nat,
    ) + " messages per "@ + text::decimal((p.window_ms / 1000) as nat) + " seconds"@
}

/// The times that are not before a cutoff, when the times ascend.
pub open spec fn pruned(sent: Seq<u64>, cutoff: int) -> Seq<u64>
    decreases sent.len(),
{
    if sent.len() > 0 && sent[0] < cutoff {
        pruned(sent.drop_first(), cutoff)
    } else {
        sent
    }
}

/// The policy after a message is offered at a time, and why it is refused, if it is.
pub open spec fn offer(text: Seq<char>, now: u64, p: MessagePolicyView) -> (
    MessagePolicyView,
    Option<Seq<char>>,
) {
    match text_rejection(text, p) {
        Some(e) => (p, Some(e)),
        None => {
            let kept = pruned(p.sent_timestamps_ms, now - p.window_ms);
            if kept.len() >= p.max_messages_per_window {
                (MessagePolicyView { sent_timestamps_ms: kept, ..p }, Some(rate_rejection(p)))
            } else {
                (MessagePolicyView { sent_timestamps_ms: kept.push(now), ..p }, None)
            }
        },
    }
}

/// Enforce the rate limit at a time.
#[verifier::spinoff_prover]
#[verifier::rlimit(60)]
pub fn enforce_rate_limit(policy: &mut MessagePolicy, now: u64) -> (res: Result<(), String>)
    ensures
        ({
            let p = old(policy)@;
            let kept = pruned(p.sent_timestamps_ms, now - p.window_ms);
            match res {
                Ok(_) => kept.len() < p.max_messages_per_window && final(policy)@ == (
                MessagePolicyView { sent_timestamps_ms: kept.push(now), ..p }),
                Err(e) => kept.len() >= p.max_messages_per_window && final(policy)@ == (
                MessagePolicyView { sent_timestamps_ms: kept, ..p }) && e@ == rate_rejection(p),
            }
        }),
{
    let window: u64 = policy.window_ms;
    let cutoff: u64 = if now >= window {
        now - window
    } else {
        0
    };
    let ghost p = policy@;
    let ghost sent = policy.sent_timestamps_ms@;
    let mut count: usize = 0;
    let n: usize = policy.sent_timestamps_ms.len();
    assert(sent.subrange(0, n as int) =~= sent);
    while count < n && policy.sent_timestamps_ms[count] < cutoff
        invariant
            count <= n == sent.len(),
            sent == policy.sent_timestamps_ms@,
            cutoff == (if now >= window {
                now - window
            } else {
                0
            }),
            pruned(sent.subrange(count as int, n as int), now - window) == pruned(
                sent,
                now - window,
            ),
        decreases n - count,
    {
        assert(sent.subrange(count as int, n as int).drop_first() =~= sent.subrange(
            count + 1,
            n as int,
        ));
        count = count + 1;
    }
    let ghost kept = pruned(sent, now - window);
    assert(kept == sent.subrange(count as int, n as int));
    let mut i: usize = 0;
    while i < count
        invariant
            i <= count <= n == sent.len(),
            policy.sent_timestamps_ms@ == sent.subrange(i as int, n as int),
            policy@ == (MessagePolicyView {
                sent_timestamps_ms: sent.subrange(i as int, n as int),
                ..p
            }),
        decreases count - i,
    {
        let _ = policy.sent_timestamps_ms.pop_front();
        i = i + 1;
        assert(policy.sent_timestamps_ms@ =~= sent.subrange(i as int, n as int));
    }
    if policy.sent_timestamps_ms.len() >= policy.max_messages_per_window {
        let seconds: u64 = window / 1000;
        return Err(
            cat5(
                "message rejected by local policy\n\nreason:\n  paste/rate burst detected: max ",
                count_text(policy.max_messages_per_window).as_str(),
                " messages per ",
                decimal_text(seconds).as_str(),
                " seconds",
            ),
        );
    }
    policy.sent_timestamps_ms.push_back(now);
    Ok(())
}

/// Enforce the policy on a message that is offered at a time.
pub fn enforce_message_policy(text: &str, policy: &mut MessagePolicy, now: u64) -> (res: Result<
    (),
    String,
>)
    ensures
        final(policy)@ == offer(text@, now, old(policy)@).0,
        match res {
            Ok(_) => offer(text@, now, old(policy)@).1 is None,
            Err(e) => offer(text@, now, old(policy)@).1 == Some(e@),
        },
{
    let chars = chars_of(text);
    let count: usize = chars.len();
    if count == 0 {
        return Err(
            "message rejected by local policy\n\nreason:\n  empty messages are not allowed".to_owned(),
        );
    }
    if count > policy.max_chars {
        return Err(
            cat5(
                "message rejected by local policy\n\nreason:\n  message is too long: ",
                count_text(count).as_str(),
                " chars, max ",
                count_text(policy.max_chars).as_str(),
                " chars",
            ),
        );
    }
    if policy.reject_multiline && (has_char(&chars, '\n') || has_char(&chars, '\r')) {
        return Err(
            "message rejected by local policy\n\nreason:\n  multiline input is not allowed".to_owned(),
        );
    }
    if policy.reject_control_chars && contains_rejected_control_char(text) {
        return Err(
            "message rejected by local policy\n\nreason:\n  control characters are not allowed".to_owned(),
        );
    }
    if policy.reject_links && contains_link_like_token(text) {
        return Err(
            cat3(
                "message rejected by local policy\n\nreason:\n  links are not allowed in ",
                policy.mode_name(),
                " mode",
            ),
        );
    }
    enforce_rate_limit(policy, now)
}

/// A message that is refused for its text uses nothing of the rate budget.
pub proof fn law_rejected_text_is_free(text: Seq<char>, now: u64, p: MessagePolicyView)
    requires
        text_rejection(text, p) is Some,
    ensures
        offer(text, now, p).0 == p,
        offer(text, now, p).1 == text_rejection(text, p),
{
}

/// Neither mode lets links, several lines or control characters through, whatever was sent
/// before.
pub proof fn law_no_mode_is_unrestricted(text: Seq<char>, now: u64, p: MessagePolicyView)
    requires
        p.reject_multiline,
        p.reject_control_chars,
        p.reject_links,
        has_link(text) || has_control(text) || text.contains('\n') || text.contains('\r'),
    ensures
        offer(text, now, p).1 is Some,
        strict_policy().reject_multiline && strict_policy().reject_control_chars
            && strict_policy().reject_links,
        relaxed_policy().reject_multiline && relaxed_policy().reject_control_chars
            && relaxed_policy().reject_links,
{
}

/// The times of accepted messages ascend and fit the limit.
pub open spec fn budget_kept(p: MessagePolicyView) -> bool {
    &&& p.sent_timestamps_ms.len() <= p.max_messages_per_window
    &&& forall|i: int, j: int|
        0 <= i <= j < p.sent_timestamps_ms.len() ==> p.sent_timestamps_ms[i]
            <= p.sent_timestamps_ms[j]
}

proof fn lemma_pruned(sent: Seq<u64>, cutoff: int)
    requires
        forall|i: int, j: int| 0 <= i <= j < sent.len() ==> sent[i] <= sent[j],
    ensures
        pruned(sent, cutoff).len() <= sent.len(),
        forall|i: int, j: int|
            0 <= i <= j < pruned(sent, cutoff).len() ==> pruned(sent, cutoff)[i] <= pruned(
                sent,
                cutoff,
            )[j],
        forall|i: int|
            0 <= i < pruned(sent, cutoff).len() ==> cutoff <= #[trigger] pruned(sent, cutoff)[i],
        forall|x: u64| #[trigger] sent.contains(x) && x >= cutoff ==> pruned(sent, cutoff).contains(
            x,
        ),
        pruned(sent, cutoff).len() > 0 ==> pruned(sent, cutoff).last() == sent.last(),
    decreases sent.len(),
{
    if sent.len() > 0 && sent[0] < cutoff {
        lemma_pruned(sent.drop_first(), cutoff);
        assert forall|x: u64| #[trigger] sent.contains(x) && x >= cutoff implies pruned(
            sent,
            cutoff,
        ).contains(x) by {
            let i = choose|i: int| 0 <= i < sent.len() && sent[i] == x;
            assert(sent.drop_first()[i - 1] == x);
            assert(sent.drop_first().contains(x));
        }
    }
}

/// While the clock does not go back, the accepted messages within a window never exceed the
/// limit: after each offer the recorded times are those of the window, and fit the limit.
pub proof fn law_rate_limit(text: Seq<char>, now: u64, p: MessagePolicyView)
    requires
        budget_kept(p),
        p.sent_timestamps_ms.len() > 0 ==> p.sent_timestamps_ms.last() <= now,
    ensures
        budget_kept(offer(text, now, p).0),
        offer(text, now, p).0.sent_timestamps_ms.len() > 0 ==> offer(
            text,
            now,
            p,
        ).0.sent_timestamps_ms.last() <= now,
        offer(text, now, p).1 is None ==> {
            let after = offer(text, now, p).0.sent_timestamps_ms;
            &&& after.last() == now
            &&& forall|x: u64| #[trigger]
                p.sent_timestamps_ms.contains(x) && x >= now - p.window_ms ==> after.contains(x)
            &&& forall|i: int|
                0 <= i < after.len() ==> now - p.window_ms <= #[trigger] after[i] <= now
        },
{
    lemma_pruned(p.sent_timestamps_ms, now - p.window_ms);
    let kept = pruned(p.sent_timestamps_ms, now - p.window_ms);
    if offer(text, now, p).1 is None {
        let after = kept.push(now);
        assert forall|x: u64| #[trigger]
            p.sent_timestamps_ms.contains(x) && x >= now - p.window_ms implies after.contains(
            x,
        ) by {
            let i = choose|i: int| 0 <= i < kept.len() && kept[i] == x;
            assert(after[i] == x);
        }
        assert forall|i: int| 0 <= i < after.len() implies now - p.window_ms <= #[trigger] after[i]
            <= now by {
            if i < kept.len() {
                assert(after[i] == kept[i]);
                assert(kept[i] <= kept[kept.len() - 1]);
            }
        }
    }
}

/// What a rule does.
pub open spec fn rule_word(rejected: bool) -> Seq<char> {
    if rejected {
        "rejected"@
    } else {
        "allowed"@
    }
}

fn rule_text(rejected: bool) -> (res: &'static str)
    ensures
        res@ == rule_word(rejected),
{
    if rejected {
        "rejected"
    } else {
        "allowed"
    }
}

/// The description of a policy.
pub open spec fn policy_lines(p: MessagePolicyView) -> Seq<Seq<char>> {
    seq![
        "message policy:"@,
        "  mode: "@ + mode_word(p.mode),
        "  max chars: "@ + text::decimal(p.max_chars as nat),
        "  links: "@ + rule_word(p.reject_links),
        "  multiline: "@ + rule_word(p.reject_multiline),
        "  control chars: "@ + rule_word(p.reject_control_chars),
        "  rate limit: "@ + text::decimal(p.max_messages_per_window as nat) + " messages / "@ + text::decimal(
            (p.window_ms / 1000) as nat,
        ) + "s"@,
        "  paste/file-transfer mode: unavailable"@,
    ]
}

/// Describe a policy.
pub fn message_policy_report(policy: &MessagePolicy) -> (res: Lines)
    ensures
        res@ == policy_lines(policy@),
{
    let mut lines = Lines::new();
    lines.say("message policy:");
    lines.add(cat2("  mode: ", policy.mode_name()));
    lines.add(cat2("  max chars: ", count_text(policy.max_chars).as_str()));
    lines.add(cat2("  links: ", rule_text(policy.reject_links)));
    lines.add(cat2("  multiline: ", rule_text(policy.reject_multiline)));
    lines.add(cat2("  control chars: ", rule_text(policy.reject_control_chars)));
    let seconds: u64 = policy.window_ms / 1000;
    lines.add(
        cat5(
            "  rate limit: ",
            count_text(policy.max_messages_per_window).as_str(),
            " messages / ",
            decimal_text(seconds).as_str(),
            "s",
        ),
    );
    lines.say("  paste/file-transfer mode: unavailable");
    assert(lines@ =~= policy_lines(policy@));
    lines
}

/// The policy after a policy command.
pub open spec fn policy_after(action: PolicyCommandView, p: MessagePolicyView) -> MessagePolicyView {
    match action {
        PolicyCommandView::Show => p,
        PolicyCommandView::Strict => strict_policy(),
        PolicyCommandView::Relaxed => relaxed_policy(),
    }
}

/// What a policy command prints.
pub open spec fn policy_command_lines(action: PolicyCommandView, p: MessagePolicyView) -> Seq<
    Seq<char>,
> {
    match action {
        PolicyCommandView::Show => policy_lines(p),
        PolicyCommandView::Strict => seq!["message policy set to strict"@] + policy_lines(
            strict_policy(),
        ),
        PolicyCommandView::Relaxed => seq![
            "message policy set to relaxed"@,
            "note: links, multiline input and control characters are still rejected"@,
        ] + policy_lines(relaxed_policy()),
    }
}

/// Show or change the policy.
pub fn handle_policy_command(action: &PolicyCommand, policy: &mut MessagePolicy) -> (res: Lines)
    ensures
        final(policy)@ == policy_after(action@, old(policy)@),
        res@ == policy_command_lines(action@, old(policy)@),
{
    let mut lines = Lines::new();
    match action {
        PolicyCommand::Show => {},
        PolicyCommand::Strict => {
            *policy = MessagePolicy::strict();
            lines.say("message policy set to strict");
        },
        PolicyCommand::Relaxed => {
            *policy = MessagePolicy::relaxed();
            lines.say("message policy set to relaxed");
            lines.say("note: links, multiline input and control characters are still rejected");
        },
    }
    let report = message_policy_report(policy);
    lines.extend(&report);
    assert(lines@ =~= policy_command_lines(action@, old(policy)@));
    lines
}

/// A text passes exactly if it is not empty, not longer than allowed, and holds nothing that the
/// policy rejects: no second line, no control character, and no word that looks like a link.
pub proof fn law_which_texts_pass(text: Seq<char>, p: MessagePolicyView)
    ensures
        text_rejection(text, p) is None <==> {
            &&& 0 < text.len() <= p.max_chars
            &&& p.reject_multiline ==> !text.contains('\n') && !text.contains('\r')
            &&& p.reject_control_chars ==> forall|i: int|
                0 <= i < text.len() ==> !text::is_control(#[trigger] text[i])
            &&& p.reject_links ==> !has_link(text)
        },
{
}

/// The strict policy allows 512 characters and 8 messages in 10 seconds, the relaxed one 1024
/// characters and 16 messages; a change of the policy forgets what was sent.
pub proof fn law_the_modes(p: MessagePolicyView)
    ensures
        policy_after(PolicyCommandView::Show, p) == p,
        ({
            let strict = policy_after(PolicyCommandView::Strict, p);
            let relaxed = policy_after(PolicyCommandView::Relaxed, p);
            &&& strict.mode == PolicyMode::Strict && relaxed.mode == PolicyMode::Relaxed
            &&& strict.max_chars == 512 && relaxed.max_chars == 1024
            &&& strict.max_messages_per_window == 8 && relaxed.max_messages_per_window == 16
            &&& strict.window_ms == 10_000 && relaxed.window_ms == 10_000
            &&& strict.sent_timestamps_ms.len() == 0 && relaxed.sent_timestamps_ms.len() == 0
            &&& strict.reject_links && relaxed.reject_links
            &&& strict.reject_multiline && relaxed.reject_multiline
            &&& strict.reject_control_chars && relaxed.reject_control_chars
        }),
{
}

/// What is left of ascending times is all that is not before the cutoff.
proof fn lemma_pruned_is(sent: Seq<u64>, cutoff: int, k: int)
    requires
        0 <= k <= sent.len(),
        forall|i: int| 0 <= i < k ==> #[trigger] sent[i] < cutoff,
        k < sent.len() ==> sent[k] >= cutoff,
    ensures
        pruned(sent, cutoff) == sent.skip(k),
    decreases sent.len(),
{
    if k > 0 {
        assert(sent[0] < cutoff);
        let rest = sent.drop_first();
        assert forall|i: int| 0 <= i < k - 1 implies #[trigger] rest[i] < cutoff by {
            assert(sent[i + 1] < cutoff);
        }
        lemma_pruned_is(rest, cutoff, k - 1);
        assert(rest.skip(k - 1) =~= sent.skip(k));
    } else {
        assert(sent.skip(0) =~= sent);
    }
}

/// A text that passes is sent exactly while fewer messages than allowed were sent within the
/// window before: of the recorded times the first `k` are older. A message that is sent is
/// recorded behind those of the window; one that is not is not recorded.
pub proof fn law_when_the_rate_is_exceeded(text: Seq<char>, now: u64, p: MessagePolicyView, k: int)
    requires
        text_rejection(text, p) is None,
        0 <= k <= p.sent_timestamps_ms.len(),
        forall|i: int| 0 <= i < k ==> #[trigger] p.sent_timestamps_ms[i] < now - p.window_ms,
        k < p.sent_timestamps_ms.len() ==> p.sent_timestamps_ms[k] >= now - p.window_ms,
    ensures
        ({
            let (after, refusal) = offer(text, now, p);
            let recent = p.sent_timestamps_ms.skip(k);
            &&& refusal is None <==> p.sent_timestamps_ms.len() - k < p.max_messages_per_window
            &&& refusal is None ==> after.sent_timestamps_ms == recent.push(now)
            &&& refusal is Some ==> after.sent_timestamps_ms == recent
            &&& after == (MessagePolicyView { sent_timestamps_ms: after.sent_timestamps_ms, ..p })
        }),
{
    lemma_pruned_is(p.sent_timestamps_ms, now - p.window_ms, k);
}

/// A text without a full stop and without a slash holds no link: it passes unless it is empty, too
/// long, or holds a control character.
pub proof fn law_plain_text_passes(text: Seq<char>, p: MessagePolicyView)
    requires
        0 < text.len() <= p.max_chars,
        forall|i: int|
            0 <= i < text.len() ==> !text::is_control(#[trigger] text[i]) && text[i] != '.' && text[i]
                != '/',
    ensures
        text_rejection(text, p) is None,
{
    assert(!text.contains('\n') && !text.contains('\r')) by {
        if text.contains('\n') {
            let i = choose|i: int| 0 <= i < text.len() && text[i] == '\n';
            assert(text::is_control(text[i]));
        }
        if text.contains('\r') {
            let i = choose|i: int| 0 <= i < text.len() && text[i] == '\r';
            assert(text::is_control(text[i]));
        }
    }
    assert forall|i: int, j: int| #[trigger] is_word(text, i, j) implies !link_like(
        text.subrange(i, j),
    ) by {
        let word = text.subrange(i, j);
        assert(forall|k: int| 0 <= k < word.len() ==> word[k] == text[i + k]);
        lemma_plain_words_are_no_links(word);
    }
}

/// A word without a full stop and a slash is not taken for a link.
proof fn lemma_plain_words_are_no_links(word: Seq<char>)
    requires
        forall|k: int| 0 <= k < word.len() ==> #[trigger] word[k] != '.' && word[k] != '/',
    ensures
        !link_like(word),
{
    let inner = text::trim_by(word, Stripped::Wrapping);
    let cut = text::trim_end_by(inner, Stripped::Stop);
    let lower = bare_token(word);
    lemma_trimmed_part(word, Stripped::Wrapping);
    text::lemma_trim_end(inner, Stripped::Stop);
    assert forall|k: int| 0 <= k < lower.len() implies #[trigger] lower[k] != '.' && lower[k]
        != '/' by {
        assert(cut[k] == inner[k]);
        assert(exists|m: int| 0 <= m < word.len() && word[m] == inner[k]);
    }
    reveal_strlit("http://");
    reveal_strlit("https://");
    reveal_strlit("www.");
    if "http://"@.is_prefix_of(lower) {
        assert(lower.subrange(0, 7)[6] == '/');
        assert(lower[6] == '/');
    }
    if "https://"@.is_prefix_of(lower) {
        assert(lower.subrange(0, 8)[7] == '/');
        assert(lower[7] == '/');
    }
    if "www."@.is_prefix_of(lower) {
        assert(lower.subrange(0, 4)[3] == '.');
        assert(lower[3] == '.');
    }
    assert(!lower.contains('.'));
    let host = lower.take(host_len(lower) as int);
    lemma_host_len(lower);
    assert(!host.contains('.')) by {
        if host.contains('.') {
            let k = choose|k: int| 0 <= k < host.len() && host[k] == '.';
            assert(lower[k] == '.');
        }
    }
}

/// The host is a beginning of the text.
proof fn lemma_host_len(s: Seq<char>)
    ensures
        host_len(s) <= s.len(),
        forall|k: int| 0 <= k < host_len(s) ==> !ends_host(#[trigger] s[k]),
        host_len(s) < s.len() ==> ends_host(s[host_len(s) as int]),
    decreases s.len(),
{
    if s.len() > 0 && !ends_host(s[0]) {
        lemma_host_len(s.drop_first());
        assert forall|k: int| 0 <= k < host_len(s) implies !ends_host(#[trigger] s[k]) by {
            if k > 0 {
                assert(s[k] == s.drop_first()[k - 1]);
            }
        }
    }
}

/// What trimming leaves is a part of the text.
proof fn lemma_trimmed_part(s: Seq<char>, class: Stripped)
    ensures
        forall|k: int|
            0 <= k < text::trim_by(s, class).len() ==> exists|m: int|
                0 <= m < s.len() && s[m] == #[trigger] text::trim_by(s, class)[k],
{
    let a = text::trim_start_by(s, class);
    let b = text::trim_by(s, class);
    text::lemma_trim_start(s, class);
    text::lemma_trim_end(a, class);
    assert forall|k: int| 0 <= k < b.len() implies exists|m: int|
        0 <= m < s.len() && s[m] == #[trigger] b[k] by {
        let m = s.len() - a.len() + k;
        assert(b[k] == a[k]);
        assert(a[k] == s[m]);
    }
}

/// A word is not wrapped and does not end with a full stop.
pub open spec fn bare_word(word: Seq<char>) -> bool {
    &&& word.len() > 0
    &&& !text::is_wrapping(word[0])
    &&& !text::is_wrapping(word.last())
    &&& word.last() != '.'
}

/// A bare word is not changed but for its case.
proof fn lemma_bare(word: Seq<char>)
    requires
        bare_word(word),
    ensures
        bare_token(word) == lowered(word),
{
    assert(text::trim_start_by(word, Stripped::Wrapping) == word);
    assert(text::trim_end_by(word, Stripped::Wrapping) == word);
    assert(text::trim_end_by(word, Stripped::Stop) == word);
}

/// A text with a word that begins like a web address, in whatever case, is refused by every policy
/// that rejects links, and so is one with a word that holds both an at sign and a full stop.
pub proof fn law_links_are_refused(text: Seq<char>, i: int, j: int, p: MessagePolicyView)
    requires
        p.reject_links,
        is_word(text, i, j),
        bare_word(text.subrange(i, j)),
        ({
            let word = lowered(text.subrange(i, j));
            ||| "http://"@.is_prefix_of(word)
            ||| "https://"@.is_prefix_of(word)
            ||| "www."@.is_prefix_of(word)
            ||| word.contains('@') && word.contains('.')
        }),
    ensures
        text_rejection(text, p) is Some,
{
    lemma_bare(text.subrange(i, j));
    assert(link_like(text.subrange(i, j)));
}

/// A text with a word that is a domain name, a label of letters, digits and inner hyphens and one of
/// letters with a full stop between, is refused by every policy that rejects links, whatever path
/// follows.
pub proof fn law_domains_are_refused(
    text: Seq<char>,
    i: int,
    j: int,
    name: Seq<char>,
    ending: Seq<char>,
    path: Seq<char>,
    p: MessagePolicyView,
)
    requires
        p.reject_links,
        is_word(text, i, j),
        bare_word(text.subrange(i, j)),
        lowered(text.subrange(i, j)) == name + seq!['.'] + ending + path,
        0 < name.len() <= 63,
        2 <= ending.len() <= 24,
        name_letters(name),
        all_letters(ending),
        path.len() > 0 ==> path[0] == '/' || path[0] == '?' || path[0] == '#',
    ensures
        text_rejection(text, p) is Some,
{
    let word = text.subrange(i, j);
    lemma_bare(word);
    let lower = lowered(word);
    let host = name + seq!['.'] + ending;
    lemma_host_len(lower);
    let n = host_len(lower) as int;
    assert forall|k: int| 0 <= k < host.len() implies !ends_host(#[trigger] lower[k]) by {
        if k < name.len() {
            assert(lower[k] == name[k]);
        } else if k > name.len() {
            assert(lower[k] == ending[k - name.len() - 1]);
            assert(text::is_letter(ending[k - name.len() - 1]));
        } else {
            assert(lower[k] == '.');
        }
    }
    assert(n == host.len()) by {
        if n < host.len() {
            assert(ends_host(lower[n]));
        } else if n > host.len() {
            assert(lower[host.len() as int] == path[0]);
        }
    }
    assert(lower.take(n) =~= host);
    lemma_two_labels(name, ending);
    assert(link_like(word));
}

/// The first label of a domain name: ASCII letters, digits and inner hyphens.
pub open spec fn name_letters(name: Seq<char>) -> bool {
    &&& forall|i: int|
        0 <= i < name.len() ==> {
            let c = #[trigger] name[i];
            'a' <= c <= 'z' || 'A' <= c <= 'Z' || '0' <= c <= '9' || c == '-'
        }
    &&& name.len() > 0 ==> name[0] != '-' && name.last() != '-'
}

/// Two labels with a full stop between look like a domain.
proof fn lemma_two_labels(name: Seq<char>, ending: Seq<char>)
    requires
        0 < name.len() <= 63,
        2 <= ending.len() <= 24,
        name_letters(name),
        all_letters(ending),
    ensures
        domain_like(name + seq!['.'] + ending),
{
    let host = name + seq!['.'] + ending;
    lemma_split_after(name, ending);
    text::lemma_ascii_len(name);
    text::lemma_ascii_len(ending);
    assert(host[name.len() as int] == '.');
    assert(name[0] != '.');
    assert(text::is_letter(ending[0]));
    assert(text::is_letter(ending[ending.len() - 1]));
    assert(host[0] == name[0]);
    assert(host.last() == ending.last());
    reveal_strlit("..");
    assert(!text::occurs_in(".."@, host)) by {
        if text::occurs_in(".."@, host) {
            let k = choose|k: int|
                0 <= k && k + ".."@.len() <= host.len() && #[trigger] host.subrange(
                    k,
                    k + ".."@.len(),
                ) == ".."@;
            assert(host.subrange(k, k + 2)[0] == '.' && host.subrange(k, k + 2)[1] == '.');
            assert(host[k] == '.' && host[k + 1] == '.');
            if k < name.len() {
                assert(name[k] != '.');
            } else {
                assert(text::is_letter(ending[k - name.len()]));
            }
        }
    }
    let labels = text::split_on(host, '.');
    assert(labels =~= seq![name, ending]);
    assert(label_like(name));
    assert(label_like(ending));
}

/// What holds no full stop is one piece.
proof fn lemma_split_letters(s: Seq<char>)
    requires
        forall|k: int| 0 <= k < s.len() ==> #[trigger] s[k] != '.',
    ensures
        text::split_on(s, '.') == seq![s],
    decreases s.len(),
{
    if s.len() > 0 {
        let init = s.drop_last();
        assert forall|k: int| 0 <= k < init.len() implies #[trigger] init[k] != '.' by {
            assert(init[k] == s[k]);
        }
        lemma_split_letters(init);
        assert(s[s.len() - 1] != '.');
        assert(init.push(s.last()) =~= s);
        assert(text::split_on(s, '.') =~= seq![s]);
    } else {
        assert(s =~= Seq::empty());
    }
}

/// Letters behind a full stop are a second piece.
proof fn lemma_split_after(name: Seq<char>, ending: Seq<char>)
    requires
        name_letters(name),
        all_letters(ending),
    ensures
        text::split_on(name + seq!['.'] + ending, '.') == seq![name, ending],
    decreases ending.len(),
{
    let host = name + seq!['.'] + ending;
    if ending.len() == 0 {
        assert(host =~= name.push('.'));
        assert(host.drop_last() =~= name);
        lemma_split_letters(name);
        assert(ending =~= Seq::empty());
        assert(text::split_on(host, '.') =~= seq![name, ending]);
    } else {
        let init = ending.drop_last();
        assert forall|k: int| 0 <= k < init.len() implies text::is_letter(#[trigger] init[k]) by {
            assert(init[k] == ending[k]);
        }
        lemma_split_after(name, init);
        assert(host.drop_last() =~= name + seq!['.'] + init);
        assert(text::is_letter(ending[ending.len() - 1]));
        assert(host.last() == ending.last());
        assert(init.push(ending.last()) =~= ending);
        assert(text::split_on(host, '.') =~= seq![name, ending]);
    }
}

/// A text with a character below 32, or from 127 to 159, is refused by every policy that rejects
/// control characters.
pub proof fn law_control_characters_are_refused(text: Seq<char>, i: int, p: MessagePolicyView)
    requires
        p.reject_control_chars,
        0 <= i < text.len(),
        (text[i] as u32) < 32 || 127 <= text[i] as u32 <= 159,
    ensures
        text_rejection(text, p) is Some,
{
    assert(text::is_control(text[i]));
}

/// A quote, a bracket or a mark that may stand around a link.
pub open spec fn dress(c: char) -> bool {
    c == '"' || c == '\'' || c == '`' || c == '<' || c == '>' || c == '(' || c == ')' || c == '['
        || c == ']' || c == '{' || c == '}' || c == ',' || c == ';' || c == ':' || c == '!' || c
        == '?'
}

/// A text begins with another one, whatever the case of its letters.
pub open spec fn begins_like(s: Seq<char>, start: Seq<char>) -> bool {
    &&& start.len() <= s.len()
    &&& forall|k: int|
        0 <= k < start.len() ==> #[trigger] s[k] == start[k] || 'A' <= s[k] <= 'Z' && s[k] as int
            + 32 == start[k] as int
}

/// What begins like a text in lower case begins with it in lower case.
proof fn lemma_begins(s: Seq<char>, start: Seq<char>)
    requires
        begins_like(s, start),
        forall|k: int| 0 <= k < start.len() ==> !('A' <= #[trigger] start[k] <= 'Z'),
    ensures
        start.is_prefix_of(lowered(s)),
{
    let lower = lowered(s);
    assert forall|k: int| 0 <= k < start.len() implies lower[k] == start[k] by {
        assert(s[k] == start[k] || 'A' <= s[k] <= 'Z' && s[k] as int + 32 == start[k] as int);
        assert(start[k] == start[k]);
    }
    assert(lower.subrange(0, start.len() as int) =~= start);
}

/// What wraps a text in front is cut.
proof fn lemma_undressed_start(left: Seq<char>, rest: Seq<char>)
    requires
        forall|k: int| 0 <= k < left.len() ==> dress(#[trigger] left[k]),
        rest.len() > 0,
        !dress(rest[0]),
    ensures
        text::trim_start_by(left + rest, Stripped::Wrapping) == rest,
    decreases left.len(),
{
    let all = left + rest;
    if left.len() == 0 {
        assert(all =~= rest);
    } else {
        assert(dress(left[0]));
        assert(all[0] == left[0]);
        let shorter = left.drop_first();
        assert forall|k: int| 0 <= k < shorter.len() implies dress(#[trigger] shorter[k]) by {
            assert(shorter[k] == left[k + 1]);
        }
        lemma_undressed_start(shorter, rest);
        assert(all.drop_first() =~= shorter + rest);
    }
}

/// What wraps a text behind is cut.
proof fn lemma_undressed_end(core: Seq<char>, right: Seq<char>)
    requires
        forall|k: int| 0 <= k < right.len() ==> dress(#[trigger] right[k]),
        core.len() > 0,
        !dress(core.last()),
    ensures
        text::trim_end_by(core + right, Stripped::Wrapping) == core,
    decreases right.len(),
{
    let all = core + right;
    if right.len() == 0 {
        assert(all =~= core);
    } else {
        assert(dress(right[right.len() - 1]));
        assert(all.last() == right.last());
        let shorter = right.drop_last();
        assert forall|k: int| 0 <= k < shorter.len() implies dress(#[trigger] shorter[k]) by {
            assert(shorter[k] == right[k]);
        }
        lemma_undressed_end(core, shorter);
        assert(all.drop_last() =~= core + shorter);
    }
}

/// A web address is refused whatever its case, and whatever quotes, brackets and marks stand around
/// it.
pub proof fn law_links_in_any_dress_are_refused(
    text: Seq<char>,
    i: int,
    j: int,
    left: Seq<char>,
    core: Seq<char>,
    right: Seq<char>,
    p: MessagePolicyView,
)
    requires
        p.reject_links,
        is_word(text, i, j),
        text.subrange(i, j) == left + core + right,
        forall|k: int| 0 <= k < left.len() ==> dress(#[trigger] left[k]),
        forall|k: int| 0 <= k < right.len() ==> dress(#[trigger] right[k]),
        core.len() > 0,
        !dress(core[0]),
        !dress(core.last()),
        core.last() != '.',
        begins_like(core, "http://"@) || begins_like(core, "https://"@) || begins_like(
            core,
            "www."@,
        ),
    ensures
        text_rejection(text, p) is Some,
{
    let word = text.subrange(i, j);
    assert(left + core + right =~= left + (core + right));
    lemma_undressed_start(left, core + right);
    lemma_undressed_end(core, right);
    assert(text::trim_end_by(core, Stripped::Stop) == core);
    assert(bare_token(word) == lowered(core));
    reveal_strlit("http://");
    reveal_strlit("https://");
    reveal_strlit("www.");
    if begins_like(core, "http://"@) {
        lemma_begins(core, "http://"@);
    } else if begins_like(core, "https://"@) {
        lemma_begins(core, "https://"@);
    } else {
        lemma_begins(core, "www."@);
    }
    assert(link_like(word));
}

/// What follows the last separator is a part of the text.
proof fn lemma_last_piece(s: Seq<char>, sep: char)
    ensures
        text::split_on(s, sep).len() > 0,
        forall|k: int|
            0 <= k < text::split_on(s, sep).last().len() ==> s.contains(
                #[trigger] text::split_on(s, sep).last()[k],
            ),
    decreases s.len(),
{
    text::lemma_split_nonempty(s, sep);
    if s.len() > 0 {
        let init = s.drop_last();
        lemma_last_piece(init, sep);
        text::lemma_split_nonempty(init, sep);
        let piece = text::split_on(s, sep).last();
        assert forall|k: int| 0 <= k < piece.len() implies s.contains(#[trigger] piece[k]) by {
            let before = text::split_on(init, sep).last();
            if k < before.len() {
                assert(piece[k] == before[k]);
                assert(init.contains(before[k]));
                let m = choose|m: int| 0 <= m < init.len() && init[m] == before[k];
                assert(s[m] == piece[k]);
            } else {
                assert(piece[k] == s[s.len() - 1]);
            }
        }
    }
}

/// Numbers are no links: a text of digits, full stops and spaces passes, if it is not too long.
pub proof fn law_numbers_pass(text: Seq<char>, p: MessagePolicyView)
    requires
        0 < text.len() <= p.max_chars,
        forall|k: int|
            0 <= k < text.len() ==> {
                let c = #[trigger] text[k];
                '0' <= c <= '9' || c == '.' || c == ' '
            },
    ensures
        text_rejection(text, p) is None,
{
    assert(!text.contains('\n') && !text.contains('\r')) by {
        if text.contains('\n') {
            let k = choose|k: int| 0 <= k < text.len() && text[k] == '\n';
            assert('0' <= text[k] <= '9' || text[k] == '.' || text[k] == ' ');
        }
        if text.contains('\r') {
            let k = choose|k: int| 0 <= k < text.len() && text[k] == '\r';
            assert('0' <= text[k] <= '9' || text[k] == '.' || text[k] == ' ');
        }
    }
    assert(!has_control(text));
    assert forall|i: int, j: int| #[trigger] is_word(text, i, j) implies !link_like(
        text.subrange(i, j),
    ) by {
        let word = text.subrange(i, j);
        assert forall|k: int| 0 <= k < word.len() implies ({
            let c = #[trigger] word[k];
            '0' <= c <= '9' || c == '.'
        }) by {
            assert(word[k] == text[i + k]);
            assert(!text::is_white(text[i + k]));
        }
        lemma_numbers_are_no_links(word);
    }
}

/// A word of digits and full stops is not taken for a link.
proof fn lemma_numbers_are_no_links(word: Seq<char>)
    requires
        forall|k: int|
            0 <= k < word.len() ==> {
                let c = #[trigger] word[k];
                '0' <= c <= '9' || c == '.'
            },
    ensures
        !link_like(word),
{
    let inner = text::trim_by(word, Stripped::Wrapping);
    let cut = text::trim_end_by(inner, Stripped::Stop);
    let lower = bare_token(word);
    lemma_trimmed_part(word, Stripped::Wrapping);
    text::lemma_trim_end(inner, Stripped::Stop);
    assert forall|k: int| 0 <= k < lower.len() implies ({
        let c = #[trigger] lower[k];
        '0' <= c <= '9' || c == '.'
    }) by {
        assert(cut[k] == inner[k]);
        assert(exists|m: int| 0 <= m < word.len() && word[m] == inner[k]);
    }
    reveal_strlit("http://");
    reveal_strlit("https://");
    reveal_strlit("www.");
    if "http://"@.is_prefix_of(lower) {
        assert(lower.subrange(0, 7)[0] == 'h');
        assert(lower[0] == 'h');
    }
    if "https://"@.is_prefix_of(lower) {
        assert(lower.subrange(0, 8)[0] == 'h');
        assert(lower[0] == 'h');
    }
    if "www."@.is_prefix_of(lower) {
        assert(lower.subrange(0, 4)[0] == 'w');
        assert(lower[0] == 'w');
    }
    assert(!lower.contains('@')) by {
        if lower.contains('@') {
            let k = choose|k: int| 0 <= k < lower.len() && lower[k] == '@';
            assert('0' <= lower[k] <= '9' || lower[k] == '.');
        }
    }
    let host = lower.take(host_len(lower) as int);
    lemma_host_len(lower);
    lemma_last_piece(host, '.');
    let last = text::split_on(host, '.').last();
    if domain_like(host) {
        if last.len() == 0 {
            text::lemma_ascii_len(last);
        } else {
            assert(host.contains(last[0]));
            let m = choose|m: int| 0 <= m < host.len() && host[m] == last[0];
            assert(host[m] == lower[m]);
            assert(text::is_letter(last[0]));
        }
    }
}

/// The words for a mode and for a rule.
pub proof fn law_policy_words(mode: PolicyMode, rejected: bool)
    ensures
        mode_word(mode) == "strict"@ <==> mode == PolicyMode::Strict,
        mode_word(mode) == "relaxed"@ <==> mode == PolicyMode::Relaxed,
        rule_word(rejected) == "rejected"@ <==> rejected,
        rule_word(rejected) == "allowed"@ <==> !rejected,
{
    reveal_strlit("strict");
    reveal_strlit("relaxed");
    reveal_strlit("rejected");
    reveal_strlit("allowed");
    assert("strict"@[0] == 's' && "relaxed"@[0] == 'r');
    assert("rejected"@[0] == 'r' && "allowed"@[0] == 'a');
}

} // verus!
