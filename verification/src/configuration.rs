//! The configuration surface: the known settings, validation of raw
//! values against each setting's numeric bounds and pattern, and the
//! lookup and update of stored values.

use vstd::prelude::*;

use crate::endpoint::ConfigurationForm;

verus! {

/// One setting: its identifier, display name, numeric bounds and step,
/// and an optional pattern the raw value must match.
#[derive(Debug)]
pub struct ConfigurationInfo {
    pub id: String,
    pub name: String,
    pub max: Option<u32>,
    pub min: Option<u32>,
    pub step: Option<u32>,
    pub pattern: Option<String>,
}

/// Why a raw value was rejected.
#[derive(Debug, Clone, Copy, PartialEq, Eq, Structural)]
pub enum ConfigError {
    /// The value is not an unsigned decimal number.
    NotANumber,
    /// The value is below the setting's minimum.
    TooSmall,
    /// The value is above the setting's maximum.
    TooLarge,
    /// The value minus the minimum is not a multiple of the step.
    NotAMultiple,
    /// The setting's pattern does not compile.
    BadPattern,
    /// The value does not match the setting's pattern.
    PatternMismatch,
}

/// The maximum-saves-per-game setting, as it stands on the configuration
/// surface. The save retention policy does not read it.
pub fn max_save_per_game_info() -> (r: ConfigurationInfo)
    ensures
        r.id@ == "max_save_per_game"@,
        r.name@ == "Number of save to keep per game"@,
        r.max == Some(999u32),
        r.min == Some(1u32),
        r.step == Some(1u32),
        r.pattern is None,
{
    ConfigurationInfo {
        id: String::from_str("max_save_per_game"),
        name: String::from_str("Number of save to keep per game"),
        max: Some(999),
        min: Some(1),
        step: Some(1),
        pattern: None,
    }
}

/// All known settings.
pub fn config_infos() -> (r: Vec<ConfigurationInfo>)
    ensures
        r@.len() == 1,
        r@[0].id@ == "max_save_per_game"@,
{
    let mut r: Vec<ConfigurationInfo> = Vec::new();
    r.push(max_save_per_game_info());
    r
}

/// Whether a character is a decimal digit.
pub open spec fn is_digit(c: char) -> bool {
    48 <= c as int <= 57
}

/// A digit character's value.
pub open spec fn digit_val(c: char) -> int {
    c as int - 48
}

/// The value of a digit string, most significant first.
pub open spec fn dec_val(s: Seq<char>) -> int
    decreases s.len(),
{
    if s.len() == 0 {
        0
    } else {
        dec_val(s.drop_last()) * 10 + digit_val(s.last())
    }
}

/// The digits of a raw value: a single leading plus sign is accepted.
pub open spec fn digits_part(s: Seq<char>) -> Seq<char> {
    if s.len() > 0 && s[0] == '+' {
        s.drop_first()
    } else {
        s
    }
}

/// Whether every character is a decimal digit.
pub open spec fn all_digits(s: Seq<char>) -> bool {
    forall|i: int| 0 <= i < s.len() ==> is_digit(#[trigger] s[i])
}

/// A raw value parses as a `u32` when its digit part is nonempty, all
/// digits, and in range.
pub open spec fn parses_as_u32(s: Seq<char>) -> bool {
    &&& digits_part(s).len() > 0
    &&& all_digits(digits_part(s))
    &&& dec_val(digits_part(s)) <= u32::MAX
}

/// A longer digit string never has a smaller value.
proof fn lemma_dec_val_prefix(s: Seq<char>, i: int)
    requires
        0 <= i <= s.len(),
        all_digits(s),
    ensures
        dec_val(s.take(i)) <= dec_val(s),
    decreases s.len() - i,
{
    if i == s.len() {
        assert(s.take(i) =~= s);
    } else {
        lemma_dec_val_prefix(s, i + 1);
        assert(s.take(i + 1).drop_last() =~= s.take(i));
        assert(s.take(i + 1).last() == s[i]);
        assert(dec_val(s.take(i + 1)) == dec_val(s.take(i)) * 10 + digit_val(s[i]));
        assert(dec_val(s.take(i)) >= 0) by {
            lemma_dec_val_nonneg(s.take(i));
        }
        assert(0 <= digit_val(s[i]));
    }
}

/// A digit string's value is never negative.
proof fn lemma_dec_val_nonneg(s: Seq<char>)
    requires
        forall|i: int| 0 <= i < s.len() ==> is_digit(#[trigger] s[i]),
    ensures
        dec_val(s) >= 0,
    decreases s.len(),
{
    if s.len() > 0 {
        assert(forall|i: int|
            0 <= i < s.drop_last().len() ==> is_digit(#[trigger] s.drop_last()[i]));
        lemma_dec_val_nonneg(s.drop_last());
    }
}

/// Parse an unsigned decimal number, exactly as the validation reads raw
/// values: an optional leading plus sign, then decimal digits fitting a
/// `u32`.
pub fn parse_u32(raw: &str) -> (r: Option<u32>)
    ensures
        r is Some <==> parses_as_u32(raw@),
        (match r {
            Some(v) => v as int == dec_val(digits_part(raw@)),
            None => true,
        }),
{
    let len = raw.unicode_len();
    let mut start: usize = 0;
    if len > 0 && raw.get_char(0) == '+' {
        start = 1;
    }
    let ghost digits = digits_part(raw@);
    assert(digits =~= raw@.subrange(start as int, len as int));
    if start >= len {
        assert(digits.len() == 0);
        return None;
    }
    let mut value: u32 = 0;
    let mut k: usize = start;
    while k < len
        invariant
            start <= k <= len,
            len == raw@.len(),
            start + digits.len() == len,
            digits == digits_part(raw@),
            digits == raw@.subrange(start as int, len as int),
            forall|i: int| 0 <= i < k - start ==> is_digit(#[trigger] digits[i]),
            value as int == dec_val(digits.take(k - start)),
        decreases len - k,
    {
        let c = raw.get_char(k);
        assert(c == digits[k - start]);
        let code = c as u32;
        if code < 48 || code > 57 {
            assert(!is_digit(digits[k - start]));
            return None;
        }
        let d = code - 48;
        assert(d as int == digit_val(digits[k - start]));
        if value > (u32::MAX - d) / 10 {
            proof {
                assert(digits.take(k - start + 1).drop_last() =~= digits.take(k - start));
                assert(dec_val(digits.take(k - start + 1)) == value as int * 10 + d as int);
                assert(value as int * 10 + d as int > u32::MAX) by {
                    assert(value as int > (u32::MAX - d) as int / 10);
                };
                if all_digits(digits) {
                    lemma_dec_val_prefix(digits, k - start + 1);
                }
            }
            return None;
        }
        proof {
            assert(digits.take(k - start + 1).drop_last() =~= digits.take(k - start));
            assert(digits.take(k - start + 1).last() == digits[k - start]);
        }
        value = value * 10 + d;
        k += 1;
    }
    assert(digits.take(len - start) =~= digits);
    assert(all_digits(digits));
    assert(value as int == dec_val(digits));
    Some(value)
}

/// The result of testing `text` against the regular expression
/// `pattern`: it depends on the two strings alone.
pub uninterp spec fn regex_match(pattern: Seq<char>, text: Seq<char>) -> bool;

/// Relies on regex::Regex::new and Regex::is_match: compiling the
/// pattern, then testing the text. `None` reports a pattern that does
/// not compile.
#[verifier::external_body]
fn regex_is_match(pattern: &str, text: &str) -> (r: Option<bool>)
    ensures
        (match r {
            Some(b) => b == regex_match(pattern@, text@),
            None => true,
        }),
{
    match regex::Regex::new(pattern) {
        Ok(re) => Some(re.is_match(text)),
        Err(_) => None,
    }
}

/// Whether the setting carries any numeric constraint.
pub open spec fn numeric_constrained(c: ConfigurationInfo) -> bool {
    c.min is Some || c.max is Some || c.step is Some
}

/// Whether a parsed value meets the setting's bounds and step.
pub open spec fn numeric_ok(c: ConfigurationInfo, raw: Seq<char>) -> bool {
    !numeric_constrained(c) || {
        &&& parses_as_u32(raw)
        &&& (match c.min {
            Some(mn) => dec_val(digits_part(raw)) >= mn,
            None => true,
        })
        &&& (match c.max {
            Some(mx) => dec_val(digits_part(raw)) <= mx,
            None => true,
        })
        &&& (match c.step {
            Some(st) => multiple_ok(
                dec_val(digits_part(raw)) - (match c.min {
                    Some(mn) => mn as int,
                    None => 0,
                }),
                st as int,
            ),
            None => true,
        })
    }
}

/// Whether a difference is a multiple of a step; a zero step admits only
/// a zero difference.
pub open spec fn multiple_ok(diff: int, step: int) -> bool {
    if step == 0 {
        diff == 0
    } else {
        diff % step == 0
    }
}

impl ConfigurationInfo {
    /// Validate a raw value: with any numeric constraint present the
    /// value must be an unsigned decimal meeting minimum, maximum and
    /// step; with a pattern present the value must match it. Errors name
    /// the first failing check, in that order.
    pub fn validate(&self, raw: &str) -> (r: Result<(), ConfigError>)
        ensures
            r is Ok ==> numeric_ok(*self, raw@) && (match self.pattern {
                Some(ref p) => regex_match(p@, raw@),
                None => true,
            }),
            !numeric_ok(*self, raw@) ==> r is Err,
            numeric_ok(*self, raw@) && self.pattern is None ==> r is Ok,
            r == Err::<(), ConfigError>(ConfigError::PatternMismatch) ==> (match self.pattern {
                Some(ref p) => !regex_match(p@, raw@),
                None => false,
            }),
    {
        if self.min.is_some() || self.max.is_some() || self.step.is_some() {
            let value = match parse_u32(raw) {
                Some(v) => v,
                None => {
                    assert(!parses_as_u32(raw@));
                    return Err(ConfigError::NotANumber);
                },
            };
            assert(parses_as_u32(raw@));
            assert(value as int == dec_val(digits_part(raw@)));
            if let Some(mn) = self.min {
                if value < mn {
                    return Err(ConfigError::TooSmall);
                }
            }
            if let Some(mx) = self.max {
                if value > mx {
                    return Err(ConfigError::TooLarge);
                }
            }
            if let Some(st) = self.step {
                let base = match self.min {
                    Some(mn) => mn,
                    None => 0,
                };
                let diff = value - base;
                let is_multiple = if st == 0 {
                    diff == 0
                } else {
                    diff % st == 0
                };
                if !is_multiple {
                    return Err(ConfigError::NotAMultiple);
                }
            }
        }
        if let Some(p) = &self.pattern {
            match regex_is_match(p.as_str(), raw) {
                Some(true) => {},
                Some(false) => {
                    return Err(ConfigError::PatternMismatch);
                },
                None => {
                    return Err(ConfigError::BadPattern);
                },
            }
        }
        Ok(())
    }

    /// The stored value of this setting, if any.
    pub fn get_value_in_db(&self, store: &ConfigStore) -> (r: Option<ConfigurationForm>)
        ensures
            (match r {
                Some(form) => store_lookup(store@, self.id@) == Some(form.value@),
                None => store_lookup(store@, self.id@) is None,
            }),
    {
        match store.get_configuration_value(&self.id) {
            Some(value) => Some(ConfigurationForm { value: value.clone() }),
            None => None,
        }
    }

    /// Store a new value for this setting: the first entry under its id
    /// is overwritten, or a new entry appended.
    pub fn update_value_in_db(&self, store: &mut ConfigStore, value: &str)
        ensures
            final(store)@ == store_updated(old(store)@, self.id@, value@),
    {
        store.update_configuration_value(&self.id, value);
    }
}

/// The stored configuration values, as (id, value) pairs with the first
/// entry of an id authoritative.
#[derive(Debug)]
pub struct ConfigStore {
    pub entries: Vec<(String, String)>,
}

impl View for ConfigStore {
    type V = Seq<(Seq<char>, Seq<char>)>;

    open spec fn view(&self) -> Seq<(Seq<char>, Seq<char>)> {
        self.entries.deep_view()
    }
}

/// The value stored under an id: the first matching entry's.
pub open spec fn store_lookup(
    entries: Seq<(Seq<char>, Seq<char>)>,
    id: Seq<char>,
) -> Option<Seq<char>>
    decreases entries.len(),
{
    if entries.len() == 0 {
        None
    } else if entries[0].0 == id {
        Some(entries[0].1)
    } else {
        store_lookup(entries.drop_first(), id)
    }
}

/// The store after an update: the first entry under the id gets the new
/// value; without one, a new entry is appended.
pub open spec fn store_updated(
    entries: Seq<(Seq<char>, Seq<char>)>,
    id: Seq<char>,
    value: Seq<char>,
) -> Seq<(Seq<char>, Seq<char>)>
    decreases entries.len(),
{
    if entries.len() == 0 {
        seq![(id, value)]
    } else if entries[0].0 == id {
        seq![(entries[0].0, value)] + entries.drop_first()
    } else {
        seq![entries[0]] + store_updated(entries.drop_first(), id, value)
    }
}

impl ConfigStore {
    /// An empty store.
    pub fn new() -> (r: ConfigStore)
        ensures
            r@ == Seq::<(Seq<char>, Seq<char>)>::empty(),
    {
        let r = ConfigStore { entries: Vec::new() };
        assert(r@ =~= Seq::<(Seq<char>, Seq<char>)>::empty());
        r
    }

    /// The value stored under an id, if any.
    pub fn get_configuration_value(&self, id: &String) -> (r: Option<&String>)
        ensures
            (match r {
                Some(value) => store_lookup(self@, id@) == Some(value@),
                None => store_lookup(self@, id@) is None,
            }),
    {
        let ghost entriesv = self@;
        assert(entriesv.skip(0) =~= entriesv);
        let mut k: usize = 0;
        while k < self.entries.len()
            invariant
                0 <= k <= self.entries.len(),
                entriesv == self.entries.deep_view(),
                store_lookup(entriesv, id@) == store_lookup(
                    entriesv.skip(k as int),
                    id@,
                ),
            decreases self.entries.len() - k,
        {
            let (entry_id, value) = &self.entries[k];
            assert(entriesv[k as int] == (entry_id@, value@));
            proof {
                assert(entriesv.skip(k as int)[0] == entriesv[k as int]);
                assert(entriesv.skip(k as int).drop_first() =~= entriesv.skip(k + 1));
            }
            if *entry_id == *id {
                return Some(value);
            }
            k += 1;
        }
        assert(entriesv.skip(self.entries.len() as int) =~= Seq::<(Seq<char>, Seq<char>)>::empty());
        None
    }

    /// Overwrite the first entry under the id, or append a new one.
    pub fn update_configuration_value(&mut self, id: &String, value: &str)
        ensures
            final(self)@ == store_updated(old(self)@, id@, value@),
    {
        let ghost entriesv = self@;
        let mut k: usize = 0;
        while k < self.entries.len()
            invariant
                0 <= k <= self.entries.len(),
                self@ == entriesv,
                entriesv == old(self)@,
                forall|m: int| 0 <= m < k ==> (#[trigger] entriesv[m]).0 != id@,
            decreases self.entries.len() - k,
        {
            let hit = self.entries[k].0 == *id;
            assert(entriesv[k as int] == (self.entries@[k as int].0@, self.entries@[k as int].1@));
            if hit {
                let ghost before = self@;
                let entry_id = self.entries[k].0.clone();
                self.entries.set(k, (entry_id, value.to_owned()));
                proof {
                    assert(self@ =~= before.update(k as int, (id@, value@)));
                    lemma_store_updated_at(before, id@, value@, k as int);
                }
                return;
            }
            k += 1;
        }
        let ghost before = self@;
        self.entries.push((id.clone(), value.to_owned()));
        proof {
            assert(self@ =~= before.push((id@, value@)));
            lemma_store_updated_append(before, id@, value@);
        }
    }
}

/// Updating an id stored at position `k` rewrites exactly that entry.
proof fn lemma_store_updated_at(
    entries: Seq<(Seq<char>, Seq<char>)>,
    id: Seq<char>,
    value: Seq<char>,
    k: int,
)
    requires
        0 <= k < entries.len(),
        entries[k].0 == id,
        forall|m: int| 0 <= m < k ==> (#[trigger] entries[m]).0 != id,
    ensures
        store_updated(entries, id, value) == entries.update(k, (id, value)),
    decreases k,
{
    if k == 0 {
        assert(store_updated(entries, id, value) == seq![(entries[0].0, value)]
            + entries.drop_first());
        assert(seq![(entries[0].0, value)] + entries.drop_first() =~= entries.update(
            0,
            (id, value),
        ));
    } else {
        assert(entries.drop_first()[k - 1].0 == id);
        assert forall|m: int| 0 <= m < k - 1 implies (#[trigger] entries.drop_first()[m]).0
            != id by {
            assert(entries.drop_first()[m] == entries[m + 1]);
        }
        lemma_store_updated_at(entries.drop_first(), id, value, k - 1);
        assert(seq![entries[0]] + entries.drop_first().update(k - 1, (id, value)) =~= entries
            .update(k, (id, value)));
    }
}

/// Updating an id with no entry appends one.
proof fn lemma_store_updated_append(
    entries: Seq<(Seq<char>, Seq<char>)>,
    id: Seq<char>,
    value: Seq<char>,
)
    requires
        forall|m: int| 0 <= m < entries.len() ==> (#[trigger] entries[m]).0 != id,
    ensures
        store_updated(entries, id, value) == entries.push((id, value)),
    decreases entries.len(),
{
    if entries.len() == 0 {
        assert(store_updated(entries, id, value) =~= entries.push((id, value)));
    } else {
        assert forall|m: int|
            0 <= m < entries.drop_first().len() implies (#[trigger] entries.drop_first()[m]).0
            != id by {
            assert(entries.drop_first()[m] == entries[m + 1]);
        }
        lemma_store_updated_append(entries.drop_first(), id, value);
        assert(seq![entries[0]] + entries.drop_first().push((id, value)) =~= entries.push(
            (id, value),
        ));
    }
}

} // verus!
