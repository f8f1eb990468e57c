//! Key names, virtual-key resolution, and synthetic input planning.
//!
//! A key name is either a single token — a letter, a digit, `f1`..`f12`,
//! or a named key such as `space` or `ctrl` — or a combination
//! `mod1+mod2+...+key` whose leading tokens are modifiers and whose last
//! token is a non-modifier. Tokens are matched case-insensitively and
//! whitespace around `+` is ignored; a single token is matched without
//! trimming.
//!
//! Sending a key is planned as a batch of synthetic key-down/key-up
//! events: modifiers down in order, primary down, primary up, modifiers
//! up in reverse order. Delivering such a batch needs the operating
//! system's input queue, which this library does not reach; a platform
//! front end performs the delivery from the planned batch.

use vstd::prelude::*;
use crate::text::{
    chars_eq_str, lower_chars, lower_seq, normalize, normalize_vec, split_at_sep, split_vec,
    str_chars, str_contains_char,
};

verus! {

/// Virtual-key identifier of the shift modifier.
pub const VK_SHIFT: u32 = 0x10;

/// Virtual-key identifier of the control modifier.
pub const VK_CONTROL: u32 = 0x11;

/// Virtual-key identifier of the alt modifier.
pub const VK_ALT: u32 = 0x12;

/// Why a key name or a send was rejected.
#[derive(Debug, Clone, Copy, PartialEq, Eq, Structural)]
pub enum KeyError {
    /// A token that names no known key.
    UnsupportedKey,
    /// A combination of the wrong shape: fewer than two tokens, a
    /// non-modifier before the end, or a modifier in last position.
    InvalidCombination,
    /// The host's input layer accepted fewer events than the batch
    /// holds; the whole send counts as failed. Reported by platform
    /// delivery backends, never by the planner itself.
    InjectionFailed,
    /// Key delivery is not available in this build; planning succeeded
    /// but no synthetic input layer is reachable.
    PlatformUnsupported,
}

/// One synthetic key transition: a press or a release of a virtual key.
#[derive(Debug, Clone, Copy, PartialEq, Eq, Structural)]
pub struct KeyEvent {
    pub vk: u32,
    pub down: bool,
}

/// The virtual key a normalized (trimmed, lower-cased) token names, if
/// any. Letters and digits map to their standard codes, `f1`..`f12` to
/// the function-key range, and the named keys to their fixed codes.
pub open spec fn vk_of_token(t: Seq<char>) -> Option<u32> {
    if t.len() == 1 && 97 <= t[0] as u32 && t[0] as u32 <= 122 {
        Some((0x41 + (t[0] as u32 - 97)) as u32)
    } else if t.len() == 1 && 48 <= t[0] as u32 && t[0] as u32 <= 57 {
        Some((0x30 + (t[0] as u32 - 48)) as u32)
    } else if t.len() == 2 && t[0] == 'f' && 49 <= t[1] as u32 && t[1] as u32 <= 57 {
        Some((0x70 + (t[1] as u32 - 49)) as u32)
    } else if t.len() == 3 && t[0] == 'f' && t[1] == '1' && 48 <= t[2] as u32 && t[2] as u32
        <= 50 {
        Some((0x79 + (t[2] as u32 - 48)) as u32)
    } else if t == "space"@ {
        Some(0x20)
    } else if t == "enter"@ {
        Some(0x0d)
    } else if t == "return"@ {
        Some(0x0d)
    } else if t == "tab"@ {
        Some(0x09)
    } else if t == "escape"@ {
        Some(0x1b)
    } else if t == "esc"@ {
        Some(0x1b)
    } else if t == "shift"@ {
        Some(VK_SHIFT)
    } else if t == "ctrl"@ {
        Some(VK_CONTROL)
    } else if t == "control"@ {
        Some(VK_CONTROL)
    } else if t == "alt"@ {
        Some(VK_ALT)
    } else if t == "left"@ {
        Some(0x25)
    } else if t == "up"@ {
        Some(0x26)
    } else if t == "right"@ {
        Some(0x27)
    } else if t == "down"@ {
        Some(0x28)
    } else if t == "backspace"@ {
        Some(0x08)
    } else if t == "delete"@ {
        Some(0x2e)
    } else if t == "home"@ {
        Some(0x24)
    } else if t == "end"@ {
        Some(0x23)
    } else if t == "pageup"@ {
        Some(0x21)
    } else if t == "pagedown"@ {
        Some(0x22)
    } else {
        None
    }
}

/// The virtual key of a token known to resolve.
pub open spec fn token_vk(t: Seq<char>) -> u32
    recommends
        vk_of_token(t) is Some,
{
    vk_of_token(t)->0
}

/// Whether a virtual key is one of the three modifiers.
pub open spec fn is_modifier_vk(vk: u32) -> bool {
    vk == VK_SHIFT || vk == VK_CONTROL || vk == VK_ALT
}

/// What a whole key name resolves to when it carries no `+`: the name is
/// lower-cased (not trimmed) and looked up as one token.
pub open spec fn resolve_spec(name: Seq<char>) -> Option<u32> {
    vk_of_token(lower_seq(name))
}

/// The normalized tokens of a `+`-combination.
pub open spec fn combo_parts(s: Seq<char>) -> Seq<Seq<char>> {
    split_at_sep(s, '+').map_values(|p: Seq<char>| normalize(p))
}

/// The fault token `k` contributes to a combination, if any: an unknown
/// token is unsupported; a known non-modifier before the last position,
/// or a known modifier in last position, makes the combination invalid.
pub open spec fn combo_error_at(toks: Seq<Seq<char>>, k: int) -> Option<KeyError>
    recommends
        0 <= k < toks.len(),
{
    if vk_of_token(toks[k]) is None {
        Some(KeyError::UnsupportedKey)
    } else if k < toks.len() - 1 && !is_modifier_vk(token_vk(toks[k])) {
        Some(KeyError::InvalidCombination)
    } else if k == toks.len() - 1 && is_modifier_vk(token_vk(toks[k])) {
        Some(KeyError::InvalidCombination)
    } else {
        None
    }
}

/// The first fault among tokens `k..`, scanning left to right.
pub open spec fn first_combo_error_from(toks: Seq<Seq<char>>, k: int) -> Option<KeyError>
    decreases toks.len() - k,
{
    if k < 0 || k >= toks.len() {
        None
    } else if combo_error_at(toks, k) is Some {
        combo_error_at(toks, k)
    } else {
        first_combo_error_from(toks, k + 1)
    }
}

/// Why a key name taken as a combination is rejected, if it is: fewer
/// than two tokens, or the first faulty token's error.
pub open spec fn combo_error(s: Seq<char>) -> Option<KeyError> {
    let toks = combo_parts(s);
    if toks.len() < 2 {
        Some(KeyError::InvalidCombination)
    } else {
        first_combo_error_from(toks, 0)
    }
}

/// The modifier keys of a well-formed combination, in written order.
pub open spec fn combo_mods(toks: Seq<Seq<char>>) -> Seq<u32> {
    Seq::new((toks.len() - 1) as nat, |k: int| token_vk(toks[k]))
}

/// The primary (last) key of a well-formed combination.
pub open spec fn combo_primary(toks: Seq<Seq<char>>) -> u32 {
    token_vk(toks[toks.len() - 1])
}

/// Why a key name is rejected, if it is: names with `+` follow the
/// combination rules, others must resolve as a single token.
pub open spec fn key_error(s: Seq<char>) -> Option<KeyError> {
    if s.contains('+') {
        combo_error(s)
    } else if resolve_spec(s) is Some {
        None
    } else {
        Some(KeyError::UnsupportedKey)
    }
}

/// A key name the resolver accepts.
pub open spec fn key_valid(s: Seq<char>) -> bool {
    key_error(s) is None
}

/// The synthetic event batch for modifiers `mods` and primary key `p`:
/// each modifier pressed in order, the primary pressed and released, and
/// the modifiers released in reverse order.
pub open spec fn planned_events(mods: Seq<u32>, p: u32) -> Seq<KeyEvent> {
    Seq::new(mods.len(), |i: int| KeyEvent { vk: mods[i], down: true }) + seq![
        KeyEvent { vk: p, down: true },
        KeyEvent { vk: p, down: false },
    ] + Seq::new(mods.len(), |i: int| KeyEvent { vk: mods[mods.len() - 1 - i], down: false })
}

/// The batch a valid key name plans to: its combination's bracketed
/// batch, or a bare press-release for a single token.
pub open spec fn planned_for_key(s: Seq<char>) -> Seq<KeyEvent>
    recommends
        key_valid(s),
{
    if s.contains('+') {
        let toks = combo_parts(s);
        planned_events(combo_mods(toks), combo_primary(toks))
    } else {
        planned_events(Seq::<u32>::empty(), token_vk(lower_seq(s)))
    }
}

proof fn lemma_first_error_locate(toks: Seq<Seq<char>>, start: int, k: int)
    requires
        0 <= start <= k < toks.len(),
        forall|j: int| start <= j < k ==> combo_error_at(toks, j) is None,
        combo_error_at(toks, k) is Some,
    ensures
        first_combo_error_from(toks, start) == combo_error_at(toks, k),
    decreases k - start,
{
    if start < k {
        lemma_first_error_locate(toks, start + 1, k);
    }
}

proof fn lemma_first_error_none(toks: Seq<Seq<char>>, start: int)
    requires
        0 <= start <= toks.len(),
        forall|j: int| start <= j < toks.len() ==> combo_error_at(toks, j) is None,
    ensures
        first_combo_error_from(toks, start) is None,
    decreases toks.len() - start,
{
    if start < toks.len() {
        lemma_first_error_none(toks, start + 1);
    }
}

/// Resolves one normalized token to its virtual key.
fn resolve_token(v: &Vec<char>) -> (r: Option<u32>)
    ensures
        r == vk_of_token(v@),
{
    if v.len() == 1 {
        let u = v[0] as u32;
        if 97 <= u && u <= 122 {
            return Some(0x41 + (u - 97));
        }
        if 48 <= u && u <= 57 {
            return Some(0x30 + (u - 48));
        }
    }
    if v.len() == 2 && v[0] == 'f' {
        let u = v[1] as u32;
        if 49 <= u && u <= 57 {
            return Some(0x70 + (u - 49));
        }
    }
    if v.len() == 3 && v[0] == 'f' && v[1] == '1' {
        let u = v[2] as u32;
        if 48 <= u && u <= 50 {
            return Some(0x79 + (u - 48));
        }
    }
    if chars_eq_str(v, "space") {
        return Some(0x20);
    }
    if chars_eq_str(v, "enter") {
        return Some(0x0d);
    }
    if chars_eq_str(v, "return") {
        return Some(0x0d);
    }
    if chars_eq_str(v, "tab") {
        return Some(0x09);
    }
    if chars_eq_str(v, "escape") {
        return Some(0x1b);
    }
    if chars_eq_str(v, "esc") {
        return Some(0x1b);
    }
    if chars_eq_str(v, "shift") {
        return Some(VK_SHIFT);
    }
    if chars_eq_str(v, "ctrl") {
        return Some(VK_CONTROL);
    }
    if chars_eq_str(v, "control") {
        return Some(VK_CONTROL);
    }
    if chars_eq_str(v, "alt") {
        return Some(VK_ALT);
    }
    if chars_eq_str(v, "left") {
        return Some(0x25);
    }
    if chars_eq_str(v, "up") {
        return Some(0x26);
    }
    if chars_eq_str(v, "right") {
        return Some(0x27);
    }
    if chars_eq_str(v, "down") {
        return Some(0x28);
    }
    if chars_eq_str(v, "backspace") {
        return Some(0x08);
    }
    if chars_eq_str(v, "delete") {
        return Some(0x2e);
    }
    if chars_eq_str(v, "home") {
        return Some(0x24);
    }
    if chars_eq_str(v, "end") {
        return Some(0x23);
    }
    if chars_eq_str(v, "pageup") {
        return Some(0x21);
    }
    if chars_eq_str(v, "pagedown") {
        return Some(0x22);
    }
    None
}

/// Lays out the synthetic batch for the given modifiers and primary key.
fn build_events(mods: &Vec<u32>, p: u32) -> (r: Vec<KeyEvent>)
    ensures
        r@ == planned_events(mods@, p),
{
    let n = mods.len();
    let mut ev: Vec<KeyEvent> = Vec::new();
    let mut i: usize = 0;
    while i < n
        invariant
            n == mods@.len(),
            i <= n,
            ev@ =~= Seq::new(i as nat, |j: int| KeyEvent { vk: mods@[j], down: true }),
        decreases n - i,
    {
        ev.push(KeyEvent { vk: mods[i], down: true });
        proof {
            assert(ev@ =~= Seq::new((i + 1) as nat, |j: int| KeyEvent { vk: mods@[j], down: true }));
        }
        i = i + 1;
    }
    ev.push(KeyEvent { vk: p, down: true });
    ev.push(KeyEvent { vk: p, down: false });
    let ghost head = Seq::new(n as nat, |j: int| KeyEvent { vk: mods@[j], down: true }) + seq![
        KeyEvent { vk: p, down: true },
        KeyEvent { vk: p, down: false },
    ];
    proof {
        assert(ev@ =~= head);
    }
    let mut k: usize = 0;
    while k < n
        invariant
            n == mods@.len(),
            k <= n,
            ev@ =~= head + Seq::new(k as nat, |j: int| KeyEvent { vk: mods@[n - 1 - j], down: false }),
        decreases n - k,
    {
        ev.push(KeyEvent { vk: mods[n - 1 - k], down: false });
        proof {
            assert(ev@ =~= head + Seq::new(
                (k + 1) as nat,
                |j: int| KeyEvent { vk: mods@[n - 1 - j], down: false },
            ));
        }
        k = k + 1;
    }
    proof {
        assert(ev@ =~= planned_events(mods@, p));
    }
    ev
}

/// Resolves key names and plans synthetic input batches. Stateless; the
/// resolution table is the fixed one above.
#[derive(Clone)]
pub struct KeySender {}

impl KeySender {
    pub fn new() -> (r: Result<KeySender, KeyError>)
        ensures
            r is Ok,
    {
        Ok(KeySender {  })
    }

    /// Resolves a single (non-combination) key name, lower-cased, to its
    /// virtual key.
    pub fn parse_key_windows(&self, key: &str) -> (r: Result<u32, KeyError>)
        ensures
            match r {
                Ok(vk) => resolve_spec(key@) == Some(vk),
                Err(e) => resolve_spec(key@) is None && e == KeyError::UnsupportedKey,
            },
    {
        let low = lower_chars(key);
        match resolve_token(&low) {
            Some(vk) => Ok(vk),
            None => Err(KeyError::UnsupportedKey),
        }
    }

    /// Splits a `+`-combination into its modifier keys and primary key.
    /// Every leading token must resolve to a modifier and the last to a
    /// non-modifier; tokens are trimmed and matched case-insensitively.
    pub fn parse_combo(&self, name: &str) -> (r: Result<(Vec<u32>, u32), KeyError>)
        ensures
            ({
                let toks = combo_parts(name@);
                match r {
                    Ok(pair) => combo_error(name@) is None && toks.len() >= 2 && pair.0@
                        == combo_mods(toks) && pair.1 == combo_primary(toks),
                    Err(e) => combo_error(name@) == Some(e),
                }
            }),
    {
        let ghost toks = combo_parts(name@);
        let chars = str_chars(name);
        let raw = split_vec(&chars, '+');
        proof {
            assert(toks.len() == raw.deep_view().len());
            assert(raw@.len() == raw.deep_view().len());
        }
        let m = raw.len();
        if m < 2 {
            return Err(KeyError::InvalidCombination);
        }
        let mut mods: Vec<u32> = Vec::new();
        let mut k: usize = 0;
        while k < m - 1
            invariant
                toks == combo_parts(name@),
                m == raw@.len(),
                raw.deep_view() == split_at_sep(name@, '+'),
                toks.len() == m,
                2 <= m,
                k <= m - 1,
                forall|j: int| 0 <= j < k ==> combo_error_at(toks, j) is None,
                mods@ =~= Seq::new(k as nat, |j: int| token_vk(toks[j])),
            decreases m - 1 - k,
        {
            let norm = normalize_vec(&raw[k]);
            proof {
                assert(raw.deep_view()[k as int] == raw@[k as int]@);
                assert(toks[k as int] == normalize(raw@[k as int]@));
            }
            match resolve_token(&norm) {
                None => {
                    proof {
                        assert(combo_error_at(toks, k as int) == Some(KeyError::UnsupportedKey));
                        lemma_first_error_locate(toks, 0, k as int);
                    }
                    return Err(KeyError::UnsupportedKey);
                },
                Some(vk) => {
                    if vk == VK_SHIFT || vk == VK_CONTROL || vk == VK_ALT {
                        mods.push(vk);
                        proof {
                            assert(mods@ =~= Seq::new(
                                (k + 1) as nat,
                                |j: int| token_vk(toks[j]),
                            ));
                        }
                    } else {
                        proof {
                            assert(combo_error_at(toks, k as int) == Some(
                                KeyError::InvalidCombination,
                            ));
                            lemma_first_error_locate(toks, 0, k as int);
                        }
                        return Err(KeyError::InvalidCombination);
                    }
                },
            }
            k = k + 1;
        }
        let norm = normalize_vec(&raw[m - 1]);
        proof {
            assert(raw.deep_view()[m - 1] == raw@[m - 1]@);
            assert(toks[m - 1] == normalize(raw@[m - 1]@));
        }
        match resolve_token(&norm) {
            None => {
                proof {
                    assert(combo_error_at(toks, m - 1) == Some(KeyError::UnsupportedKey));
                    lemma_first_error_locate(toks, 0, m - 1);
                }
                Err(KeyError::UnsupportedKey)
            },
            Some(vk) => {
                if vk == VK_SHIFT || vk == VK_CONTROL || vk == VK_ALT {
                    proof {
                        assert(combo_error_at(toks, m - 1) == Some(KeyError::InvalidCombination));
                        lemma_first_error_locate(toks, 0, m - 1);
                    }
                    Err(KeyError::InvalidCombination)
                } else {
                    proof {
                        assert(combo_error_at(toks, m - 1) is None);
                        lemma_first_error_none(toks, 0);
                        assert(mods@ =~= combo_mods(toks));
                        assert(vk == combo_primary(toks));
                    }
                    Ok((mods, vk))
                }
            },
        }
    }

    /// Checks a key name as configuration validation does: a name with
    /// `+` must be a well-formed combination, any other name must
    /// resolve as a single token.
    pub fn parse_key_for_validation(&self, key: &str) -> (r: Result<(), KeyError>)
        ensures
            r is Ok <==> key_valid(key@),
            r matches Err(e) ==> key_error(key@) == Some(e),
    {
        if str_contains_char(key, '+') {
            match self.parse_combo(key) {
                Ok(_) => Ok(()),
                Err(e) => Err(e),
            }
        } else {
            match self.parse_key_windows(key) {
                Ok(_) => Ok(()),
                Err(e) => Err(e),
            }
        }
    }

    /// Plans the synthetic event batch for a key name: for a combination
    /// `M1+..+Mk+P`, the events `down M1..Mk, down P, up P, up Mk..M1`;
    /// for a single token, its bare press and release.
    pub fn plan_key_events(&self, key: &str) -> (r: Result<Vec<KeyEvent>, KeyError>)
        ensures
            match r {
                Ok(events) => key_valid(key@) && events@ == planned_for_key(key@),
                Err(e) => key_error(key@) == Some(e),
            },
    {
        if str_contains_char(key, '+') {
            match self.parse_combo(key) {
                Ok(pair) => {
                    let (mods, p) = pair;
                    Ok(build_events(&mods, p))
                },
                Err(e) => Err(e),
            }
        } else {
            match self.parse_key_windows(key) {
                Ok(vk) => {
                    let empty: Vec<u32> = Vec::new();
                    let ev = build_events(&empty, vk);
                    proof {
                        assert(empty@ =~= Seq::<u32>::empty());
                    }
                    Ok(ev)
                },
                Err(e) => Err(e),
            }
        }
    }

    /// Plans the batch for `key` and hands it to the platform input
    /// layer. This build has no synthetic-input backend, so a valid key
    /// reports `PlatformUnsupported` after planning; an invalid key
    /// reports its resolution error. A platform front end delivers the
    /// batch from `plan_key_events` instead.
    pub fn send_key_to_window(&self, window_id: u64, key: &str) -> (r: Result<(), KeyError>)
        ensures
            r is Err,
            match r {
                Err(e) => if key_valid(key@) {
                    e == KeyError::PlatformUnsupported
                } else {
                    key_error(key@) == Some(e)
                },
                Ok(_) => false,
            },
    {
        match self.plan_key_events(key) {
            Ok(_events) => self.send_key_unix(window_id, key),
            Err(e) => Err(e),
        }
    }

    /// Delivery stub for builds without a synthetic-input backend: every
    /// call reports `PlatformUnsupported`.
    pub fn send_key_unix(&self, _window_id: u64, _key: &str) -> (r: Result<(), KeyError>)
        ensures
            r matches Err(e) && e == KeyError::PlatformUnsupported,
    {
        Err(KeyError::PlatformUnsupported)
    }
}

} // verus!
