//! Configuration of the server, read from environment variables.

use vstd::prelude::*;

use crate::text::{self, NumberFault};

verus! {

/// The settings of the server.
#[derive(Debug, Clone)]
pub struct Config {
    pub keys: Vec<String>,
    pub port: u16,
    pub host: String,
    pub cooldown_seconds: u64,
    pub request_timeout_ms: u64,
    pub cache_ttl_seconds: u64,
    pub cache_max_entries: usize,
    /// Responses larger than this (bytes) are not cached.
    pub cache_max_body_bytes: usize,
    pub log_level: String,
    pub log_format: String,
    pub ipinfo_base_url: String,
    /// If true, API keys in /me responses are redacted (only the first 3 characters are shown).
    pub redact_keys: bool,
}

/// The environment variables that the server reads, each with its value where it is set.
#[derive(Debug)]
pub struct Env {
    pub ipinfo_keys: Option<String>,
    pub port: Option<String>,
    pub host: Option<String>,
    pub cooldown_seconds: Option<String>,
    pub request_timeout_ms: Option<String>,
    pub cache_ttl_seconds: Option<String>,
    pub cache_max_entries: Option<String>,
    pub cache_max_body_bytes: Option<String>,
    pub log_level: Option<String>,
    pub log_format: Option<String>,
    pub ipinfo_base_url: Option<String>,
    pub redact_keys: Option<String>,
}

/// The keys among the pieces of a list: each without the white space at its ends, those left
/// empty skipped.
pub open spec fn keys_among(pieces: Seq<Seq<char>>) -> Seq<Seq<char>>
    decreases pieces.len(),
{
    if pieces.len() == 0 {
        Seq::empty()
    } else {
        let front = keys_among(pieces.drop_last());
        let key = text::trimmed(pieces.last());
        if key.len() == 0 {
            front
        } else {
            front.push(key)
        }
    }
}

/// The keys of a comma-separated list.
pub open spec fn key_list(raw: Seq<char>) -> Seq<Seq<char>> {
    keys_among(text::split(raw, ','))
}

fn push_key(keys: &mut Vec<String>, chars: &Vec<char>, from: usize, to: usize)
    requires
        from <= to <= chars.len(),
    ensures
        ({
            let key = text::trimmed(chars@.subrange(from as int, to as int));
            text::texts(final(keys)@) == if key.len() == 0 {
                text::texts(old(keys)@)
            } else {
                text::texts(old(keys)@).push(key)
            }
        }),
{
    let (start, end) = text::trim_bounds(chars, from, to);
    if start < end {
        let key = text::text_of(vstd::slice::slice_subrange(chars.as_slice(), start, end));
        keys.push(key);
        assert(text::texts(keys@) =~= text::texts(old(keys)@).push(key@));
    }
}

/// Reads a comma-separated list of keys.
pub fn parse_keys(raw: &str) -> (keys: Vec<String>)
    ensures
        text::texts(keys@) == key_list(raw@),
{
    let chars: Vec<char> = text::chars_of(raw);
    let mut keys: Vec<String> = Vec::new();
    let mut start: usize = 0;
    let mut i: usize = 0;
    proof {
        let none = text::split(raw@.take(0), ',');
        assert(none.drop_last() =~= Seq::empty());
        assert(none.last() =~= raw@.subrange(0, 0));
        assert(text::texts(keys@) =~= Seq::empty());
    }
    while i < chars.len()
        invariant
            start <= i <= chars.len(),
            chars@ == raw@,
            text::split(raw@.take(i as int), ',').len() > 0,
            text::split(raw@.take(i as int), ',').last() == raw@.subrange(start as int, i as int),
            text::texts(keys@) == keys_among(text::split(raw@.take(i as int), ',').drop_last()),
        decreases chars.len() - i,
    {
        let ghost before = text::split(raw@.take(i as int), ',');
        let ghost after = text::split(raw@.take(i + 1), ',');
        assert(raw@.take(i + 1).drop_last() =~= raw@.take(i as int));
        if chars[i] == ',' {
            push_key(&mut keys, &chars, start, i);
            start = i + 1;
            assert(after.drop_last() =~= before);
            assert(after.last() =~= raw@.subrange(start as int, i + 1));
        } else {
            assert(after.drop_last() =~= before.drop_last());
            assert(after.last() =~= raw@.subrange(start as int, i + 1));
        }
        i += 1;
    }
    assert(raw@.take(i as int) =~= raw@);
    push_key(&mut keys, &chars, start, i);
    keys
}

/// What is said of a text that is not a number.
pub open spec fn fault_text(fault: NumberFault) -> Seq<char> {
    match fault {
        NumberFault::Empty => "cannot parse integer from empty string"@,
        NumberFault::InvalidDigit => "invalid digit found in string"@,
        NumberFault::TooLarge => "number too large to fit in target type"@,
    }
}

/// The number that a variable holds, or the default where it is not set; or what is wrong with
/// the value.
pub open spec fn number_setting(
    variable: Option<String>,
    name: Seq<char>,
    default: nat,
    max: nat,
) -> Result<nat, Seq<char>> {
    match variable {
        Some(text) => match text::number(text@, max) {
            Ok(n) => Ok(n),
            Err(fault) => Err("Invalid value for "@ + name + ": "@ + fault_text(fault)),
        },
        None => Ok(default),
    }
}

/// What is wrong with a number setting, if anything.
pub open spec fn number_problem(
    variable: Option<String>,
    name: Seq<char>,
    max: nat,
) -> Option<Seq<char>> {
    match number_setting(variable, name, 0, max) {
        Ok(_) => None,
        Err(problem) => Some(problem),
    }
}

/// The text that a variable holds, or the default where it is not set.
pub open spec fn text_setting(variable: Option<String>, default: Seq<char>) -> Seq<char> {
    match variable {
        Some(text) => text@,
        None => default,
    }
}

/// Whether a variable holds `true`, in whatever case.
pub open spec fn flag_setting(variable: Option<String>) -> bool {
    match variable {
        Some(text) => text::lower(text@) == text::lower("true"@),
        None => false,
    }
}

/// What is wrong with the list of keys, if anything.
pub open spec fn keys_problem(variable: Option<String>) -> Option<Seq<char>> {
    match variable {
        None => Some("IPINFO_KEYS is required but not set"@),
        Some(raw) => if key_list(raw@).len() == 0 {
            Some("IPINFO_KEYS must contain at least one key"@)
        } else {
            None
        },
    }
}

/// The first problem of a list of checks, if there is any.
pub open spec fn first_problem(checks: Seq<Option<Seq<char>>>) -> Option<Seq<char>>
    decreases checks.len(),
{
    if checks.len() == 0 {
        None
    } else if checks.first() is Some {
        checks.first()
    } else {
        first_problem(checks.drop_first())
    }
}

impl Env {
    /// The checks that the variables undergo, in order, each with the problem found.
    pub open spec fn checks(self) -> Seq<Option<Seq<char>>> {
        seq![
            keys_problem(self.ipinfo_keys),
            number_problem(self.port, "PORT"@, u16::MAX as nat),
            number_problem(self.cooldown_seconds, "COOLDOWN_SECONDS"@, u64::MAX as nat),
            number_problem(self.request_timeout_ms, "REQUEST_TIMEOUT_MS"@, u64::MAX as nat),
            number_problem(self.cache_ttl_seconds, "CACHE_TTL_SECONDS"@, u64::MAX as nat),
            number_problem(self.cache_max_entries, "CACHE_MAX_ENTRIES"@, usize::MAX as nat),
            number_problem(self.cache_max_body_bytes, "CACHE_MAX_BODY_BYTES"@, usize::MAX as nat),
        ]
    }

    /// Whether `config` holds the settings that the variables give.
    pub open spec fn gives(self, config: Config) -> bool {
        &&& self.ipinfo_keys matches Some(raw) && text::texts(config.keys@) == key_list(raw@)
        &&& number_setting(self.port, "PORT"@, 8080, u16::MAX as nat) == Ok::<nat, Seq<char>>(
            config.port as nat,
        )
        &&& config.host@ == text_setting(self.host, "0.0.0.0"@)
        &&& number_setting(self.cooldown_seconds, "COOLDOWN_SECONDS"@, 60, u64::MAX as nat)
            == Ok::<nat, Seq<char>>(config.cooldown_seconds as nat)
        &&& number_setting(self.request_timeout_ms, "REQUEST_TIMEOUT_MS"@, 5000, u64::MAX as nat)
            == Ok::<nat, Seq<char>>(config.request_timeout_ms as nat)
        &&& number_setting(self.cache_ttl_seconds, "CACHE_TTL_SECONDS"@, 300, u64::MAX as nat)
            == Ok::<nat, Seq<char>>(config.cache_ttl_seconds as nat)
        &&& number_setting(self.cache_max_entries, "CACHE_MAX_ENTRIES"@, 10000, usize::MAX as nat)
            == Ok::<nat, Seq<char>>(config.cache_max_entries as nat)
        &&& number_setting(
            self.cache_max_body_bytes,
            "CACHE_MAX_BODY_BYTES"@,
            32768,
            usize::MAX as nat,
        ) == Ok::<nat, Seq<char>>(config.cache_max_body_bytes as nat)
        &&& config.log_level@ == text_setting(self.log_level, "info"@)
        &&& config.log_format@ == text_setting(self.log_format, "text"@)
        &&& config.ipinfo_base_url@ == text_setting(self.ipinfo_base_url, "https://ipinfo.io"@)
        &&& config.redact_keys == flag_setting(self.redact_keys)
    }
}

/// Says what is wrong with a text that is not a number.
pub fn describe(fault: NumberFault) -> (text: &'static str)
    ensures
        text@ == fault_text(fault),
{
    match fault {
        NumberFault::Empty => "cannot parse integer from empty string",
        NumberFault::InvalidDigit => "invalid digit found in string",
        NumberFault::TooLarge => "number too large to fit in target type",
    }
}

/// Reads the number, at most `max`, of the variable `key`, or takes the default where the
/// variable is not set.
pub fn parse_env(variable: &Option<String>, key: &str, default: u64, max: u64) -> (setting: Result<
    u64,
    String,
>)
    requires
        default <= max,
    ensures
        match setting {
            Ok(n) => n <= max && number_setting(*variable, key@, default as nat, max as nat) == Ok::<
                nat,
                Seq<char>,
            >(n as nat),
            Err(problem) => number_setting(*variable, key@, default as nat, max as nat) == Err::<
                nat,
                Seq<char>,
            >(problem@),
        },
{
    match variable {
        Some(val) => match text::parse_number(val.as_str(), max) {
            Ok(n) => Ok(n),
            Err(fault) => {
                let mut problem = text::joined("Invalid value for ", key);
                problem.append(": ");
                problem.append(describe(fault));
                Err(problem)
            },
        },
        None => Ok(default),
    }
}

/// The text of a variable, or the default where it is not set.
pub fn text_or(variable: &Option<String>, default: &str) -> (text: String)
    ensures
        text@ == text_setting(*variable, default@),
{
    match variable {
        Some(text) => text.clone(),
        None => default.to_owned(),
    }
}

/// Whether a variable holds `true`, in whatever case.
pub fn flag(variable: &Option<String>) -> (on: bool)
    ensures
        on == flag_setting(*variable),
{
    match variable {
        Some(text) => text::eq_ignore_ascii_case(text.as_str(), "true"),
        None => false,
    }
}

impl Config {
    /// Reads the settings from the environment variables, or says what is wrong with the first
    /// variable that has a problem.
    pub fn from_env(env: &Env) -> (config: Result<Config, String>)
        ensures
            match config {
                Ok(config) => first_problem(env.checks()) is None && env.gives(config),
                Err(problem) => first_problem(env.checks()) == Some(problem@),
            },
    {
        proof {
            reveal_with_fuel(first_problem, 8);
        }
        let keys = match &env.ipinfo_keys {
            None => {
                return Err("IPINFO_KEYS is required but not set".to_owned());
            },
            Some(raw) => parse_keys(raw.as_str()),
        };
        assert(text::texts(keys@).len() == keys.len());
        if keys.len() == 0 {
            return Err("IPINFO_KEYS must contain at least one key".to_owned());
        }
        let port: u16 = parse_env(&env.port, "PORT", 8080, u16::MAX as u64)? as u16;
        let cooldown_seconds: u64 = parse_env(
            &env.cooldown_seconds,
            "COOLDOWN_SECONDS",
            60,
            u64::MAX,
        )?;
        let request_timeout_ms: u64 = parse_env(
            &env.request_timeout_ms,
            "REQUEST_TIMEOUT_MS",
            5000,
            u64::MAX,
        )?;
        let cache_ttl_seconds: u64 = parse_env(
            &env.cache_ttl_seconds,
            "CACHE_TTL_SECONDS",
            300,
            u64::MAX,
        )?;
        let cache_max_entries: usize = parse_env(
            &env.cache_max_entries,
            "CACHE_MAX_ENTRIES",
            10000,
            usize::MAX as u64,
        )? as usize;
        let cache_max_body_bytes: usize = parse_env(
            &env.cache_max_body_bytes,
            "CACHE_MAX_BODY_BYTES",
            32768,
            usize::MAX as u64,
        )? as usize;
        Ok(
            Config {
                keys,
                port,
                host: text_or(&env.host, "0.0.0.0"),
                cooldown_seconds,
                request_timeout_ms,
                cache_ttl_seconds,
                cache_max_entries,
                cache_max_body_bytes,
                log_level: text_or(&env.log_level, "info"),
                log_format: text_or(&env.log_format, "text"),
                ipinfo_base_url: text_or(&env.ipinfo_base_url, "https://ipinfo.io"),
                redact_keys: flag(&env.redact_keys),
            },
        )
    }
}

/// A key as it may be shown: three asterisks and the last three characters, or the asterisks
/// alone where the key has no more than three characters.
pub open spec fn masked(key: Seq<char>) -> Seq<char> {
    if key.len() <= 3 {
        "***"@
    } else {
        "***"@ + key.skip(key.len() - 3)
    }
}

/// Masks an API key for safe logging: shows its last three characters only.
pub fn mask_key(key: &str) -> (shown: String)
    ensures
        shown@ == masked(key@),
{
    let chars: Vec<char> = text::chars_of(key);
    if chars.len() <= 3 {
        return "***".to_owned();
    }
    let n: usize = chars.len();
    let tail = text::text_of(vstd::slice::slice_subrange(chars.as_slice(), n - 3, n));
    assert(tail@ =~= key@.skip(key@.len() - 3));
    text::joined("***", tail.as_str())
}

proof fn lemma_split_has_no_separator(s: Seq<char>, sep: char)
    ensures
        text::split(s, sep).len() > 0,
        forall|i: int| 0 <= i < text::split(s, sep).len() ==> !(#[trigger] text::split(s, sep)[i]).contains(sep),
    decreases s.len(),
{
    if s.len() > 0 {
        let front = text::split(s.drop_last(), sep);
        lemma_split_has_no_separator(s.drop_last(), sep);
        assert forall|i: int| 0 <= i < text::split(s, sep).len() implies !(
        #[trigger] text::split(s, sep)[i]).contains(sep) by {
            if s.last() == sep {
                if i < front.len() {
                    assert(text::split(s, sep)[i] == front[i]);
                }
            } else if i < front.len() - 1 {
                assert(text::split(s, sep)[i] == front[i]);
            } else {
                let piece = front.last();
                assert(!front[front.len() - 1].contains(sep));
                if piece.push(s.last()).contains(sep) {
                    let j = choose|j: int|
                        0 <= j < piece.push(s.last()).len() && piece.push(s.last())[j] == sep;
                    assert(piece[j] == sep);
                }
            }
        }
    }
}

proof fn lemma_trimmed(s: Seq<char>)
    ensures
        text::trimmed(s).len() > 0 ==> !text::white_space(text::trimmed(s).first())
            && !text::white_space(text::trimmed(s).last()),
        forall|c: char| #[trigger] text::trimmed(s).contains(c) ==> s.contains(c),
    decreases s.len(),
{
    if s.len() > 0 {
        if text::white_space(s.first()) {
            lemma_trimmed(s.drop_first());
            assert forall|c: char| #[trigger] text::trimmed(s).contains(c) implies s.contains(c) by {
                let j = choose|j: int| 0 <= j < s.drop_first().len() && s.drop_first()[j] == c;
                assert(s[j + 1] == c);
            }
        } else if text::white_space(s.last()) {
            lemma_trimmed(s.drop_last());
            assert forall|c: char| #[trigger] text::trimmed(s).contains(c) implies s.contains(c) by {
                let j = choose|j: int| 0 <= j < s.drop_last().len() && s.drop_last()[j] == c;
                assert(s[j] == c);
            }
        }
    }
}

/// Whether a text can stand as a key: not empty, without white space at its ends, and without a
/// comma.
pub open spec fn clean_key(key: Seq<char>) -> bool {
    &&& key.len() > 0
    &&& !text::white_space(key.first())
    &&& !text::white_space(key.last())
    &&& !key.contains(',')
}

proof fn lemma_keys_among(pieces: Seq<Seq<char>>)
    requires
        forall|i: int| 0 <= i < pieces.len() ==> !(#[trigger] pieces[i]).contains(','),
    ensures
        forall|i: int|
            0 <= i < keys_among(pieces).len() ==> clean_key(#[trigger] keys_among(pieces)[i]),
    decreases pieces.len(),
{
    if pieces.len() > 0 {
        let front = pieces.drop_last();
        assert forall|i: int| 0 <= i < front.len() implies !(#[trigger] front[i]).contains(
            ',',
        ) by {
            assert(front[i] == pieces[i]);
        }
        lemma_keys_among(front);
        lemma_trimmed(pieces.last());
        assert(!pieces[pieces.len() - 1].contains(','));
        let key = text::trimmed(pieces.last());
        assert(key.contains(',') ==> pieces.last().contains(','));
        assert forall|i: int| 0 <= i < keys_among(pieces).len() implies clean_key(
            #[trigger] keys_among(pieces)[i],
        ) by {
            if i < keys_among(front).len() {
                assert(keys_among(pieces)[i] == keys_among(front)[i]);
            }
        }
    }
}

/// The keys of a list are clean.
pub proof fn lemma_key_list(raw: Seq<char>)
    ensures
        forall|i: int| 0 <= i < key_list(raw).len() ==> clean_key(#[trigger] key_list(raw)[i]),
{
    lemma_split_has_no_separator(raw, ',');
    lemma_keys_among(text::split(raw, ','));
}

/// A configuration that was accepted has at least one key, and its keys are clean.
pub proof fn law_accepted_keys(env: Env, config: Config)
    requires
        first_problem(env.checks()) is None,
        env.gives(config),
    ensures
        config.keys@.len() > 0,
        forall|i: int| 0 <= i < config.keys@.len() ==> clean_key((#[trigger] config.keys@[i])@),
{
    let raw = env.ipinfo_keys->0@;
    let list = text::texts(config.keys@);
    assert(env.checks().first() == keys_problem(env.ipinfo_keys));
    assert(list.len() == config.keys@.len());
    lemma_key_list(raw);
    assert forall|i: int| 0 <= i < config.keys@.len() implies clean_key(
        (#[trigger] config.keys@[i])@,
    ) by {
        assert(list[i] == config.keys@[i]@);
    }
}

/// A masked key tells at most the last three characters: keys of more than three characters that
/// end alike look alike, and so do all shorter keys.
pub proof fn law_mask_hides(key: Seq<char>, other: Seq<char>)
    requires
        (key.len() <= 3 && other.len() <= 3) || (key.len() > 3 && other.len() > 3 && key.skip(
            key.len() - 3,
        ) == other.skip(other.len() - 3)),
    ensures
        masked(key) == masked(other),
{
}

proof fn lemma_keys_among_both(a: Seq<Seq<char>>, b: Seq<Seq<char>>)
    ensures
        keys_among(a + b) == keys_among(a) + keys_among(b),
    decreases b.len(),
{
    if b.len() == 0 {
        assert(a + b =~= a);
        assert(keys_among(a) + keys_among(b) =~= keys_among(a));
    } else {
        lemma_keys_among_both(a, b.drop_last());
        assert((a + b).drop_last() =~= a + b.drop_last());
        assert(keys_among(a + b) =~= keys_among(a) + keys_among(b));
    }
}

/// No key is lost and none is made up at a comma: the keys of two lists with a comma between them
/// are those of the first and then those of the second.
pub proof fn law_lists_are_joined_by_comma(a: Seq<char>, b: Seq<char>)
    ensures
        key_list(a.push(',') + b) == key_list(a) + key_list(b),
{
    text::law_split_at_separator(a, b, ',');
    lemma_keys_among_both(text::split(a, ','), text::split(b, ','));
}

/// A text without commas holds one key, the text without the white space around it, or none where
/// it has nothing but white space.
pub proof fn law_one_key_without_commas(before: Seq<char>, key: Seq<char>, after: Seq<char>)
    requires
        !(before + key + after).contains(','),
        forall|i: int| 0 <= i < before.len() ==> text::white_space(#[trigger] before[i]),
        forall|i: int| 0 <= i < after.len() ==> text::white_space(#[trigger] after[i]),
        key.len() > 0 ==> !text::white_space(key.first()) && !text::white_space(key.last()),
    ensures
        key.len() > 0 ==> key_list(before + key + after) == seq![key],
        key.len() == 0 ==> key_list(before + key + after).len() == 0,
{
    let s = before + key + after;
    let (from, to) = text::law_trimming_takes_white_space(s);
    let found = text::trimmed(s);
    if key.len() > 0 {
        assert(s[before.len() as int] == key.first());
        assert(s[before.len() + key.len() - 1] == key.last());
        assert(found.len() > 0);
        assert(found.first() == s[from] && found.last() == s[to - 1]);
        if from < before.len() {
            assert(s[from] == before[from]);
        }
        if to > before.len() + key.len() {
            assert(s[to - 1] == after[to - 1 - before.len() - key.len()]);
        }
        assert(found =~= key);
    } else if found.len() > 0 {
        assert(found.first() == s[from]);
        if from < before.len() {
            assert(s[from] == before[from]);
        } else {
            assert(s[from] == after[from - before.len()]);
        }
    }
    text::law_split_without_separator(s, ',');
    let pieces = text::split(s, ',');
    assert(pieces.drop_last() =~= Seq::empty());
    assert(keys_among(pieces.drop_last()) == Seq::<Seq<char>>::empty());
    assert(pieces.last() == s);
    if key.len() > 0 {
        assert(key_list(s) =~= seq![key]);
    }
}

/// Clean keys that are joined with commas, however many, are read back as they were, in order.
pub proof fn law_joined_keys_are_read_back(
    keys: Seq<Seq<char>>,
    join: spec_fn(Seq<char>, Seq<char>) -> Seq<char>,
)
    requires
        keys.len() > 0,
        forall|list: Seq<char>, key: Seq<char>| #[trigger] join(list, key) == list.push(',') + key,
        forall|i: int|
            0 <= i < keys.len() ==> (#[trigger] keys[i]).len() > 0 && !text::white_space(
                keys[i].first(),
            ) && !text::white_space(keys[i].last()) && !keys[i].contains(','),
    ensures
        key_list(keys.drop_first().fold_left(keys.first(), join)) == keys,
    decreases keys.len(),
{
    let last = keys[keys.len() - 1];
    let none = Seq::<char>::empty();
    assert(none + last + none =~= last);
    law_one_key_without_commas(none, last, none);
    if keys.len() == 1 {
        assert(keys =~= seq![last]);
    } else {
        let front = keys.drop_last();
        assert(forall|i: int| 0 <= i < front.len() ==> #[trigger] front[i] == keys[i]);
        law_joined_keys_are_read_back(front, join);
        assert(keys.drop_first().drop_last() =~= front.drop_first());
        assert(keys.drop_first().last() == last);
        let list = front.drop_first().fold_left(front.first(), join);
        law_lists_are_joined_by_comma(list, last);
        assert(front + seq![last] =~= keys);
    }
}

/// A flag is on exactly if its variable holds the four letters of `true`, each in either case.
pub proof fn law_flag_is_true_in_any_case(variable: Option<String>)
    ensures
        flag_setting(variable) <==> {
            &&& variable matches Some(s)
            &&& s@.len() == 4
            &&& s@[0] == 't' || s@[0] == 'T'
            &&& s@[1] == 'r' || s@[1] == 'R'
            &&& s@[2] == 'u' || s@[2] == 'U'
            &&& s@[3] == 'e' || s@[3] == 'E'
        },
{
    reveal_strlit("true");
    if let Some(s) = variable {
        let low = text::lower(s@);
        text::law_lower_case_changes_letters(s@);
        text::law_lower_case_changes_letters("true"@);
        if low == text::lower("true"@) {
            assert(low[0] as int == 't' as int);
            assert(low[1] as int == 'r' as int);
            assert(low[2] as int == 'u' as int);
            assert(low[3] as int == 'e' as int);
        }
        if s@.len() == 4 && low[0] == 't' && low[1] == 'r' && low[2] == 'u' && low[3] == 'e' {
            assert(low =~= text::lower("true"@));
        }
    }
}

/// A masked key is three asterisks, followed, where the key has more than three characters, by
/// its last three.
pub proof fn law_mask_shows_the_end(key: Seq<char>)
    ensures
        masked(key).len() == if key.len() > 3 {
            6int
        } else {
            3
        },
        masked(key)[0] == '*' && masked(key)[1] == '*' && masked(key)[2] == '*',
        key.len() > 3 ==> masked(key)[3] == key[key.len() - 3] && masked(key)[4] == key[key.len()
            - 2] && masked(key)[5] == key[key.len() - 1],
{
    reveal_strlit("***");
}

/// A number setting is the number that its variable holds, or the default where it is not set; a
/// value that is no number is named with its variable and its fault.
pub proof fn law_number_setting_is_the_number_held(
    variable: Option<String>,
    name: Seq<char>,
    default: nat,
    max: nat,
)
    ensures
        match variable {
            None => number_setting(variable, name, default, max) == Ok::<nat, Seq<char>>(default),
            Some(s) => match text::number(s@, max) {
                Ok(n) => number_setting(variable, name, default, max) == Ok::<nat, Seq<char>>(n),
                Err(fault) => number_setting(variable, name, default, max) == Err::<nat, Seq<char>>(
                    "Invalid value for "@ + name + ": "@ + match fault {
                        NumberFault::Empty => "cannot parse integer from empty string"@,
                        NumberFault::InvalidDigit => "invalid digit found in string"@,
                        NumberFault::TooLarge => "number too large to fit in target type"@,
                    },
                ),
            },
        },
{
}

/// Every setting of an accepted configuration is what its variable holds, or the default where the
/// variable is not set.
pub proof fn law_settings_are_those_of_the_variables(env: Env, config: Config)
    requires
        env.gives(config),
    ensures
        ({
            let number = |variable: Option<String>, default: nat, max: nat, setting: nat|
                match variable {
                    None => setting == default,
                    Some(s) => text::number(s@, max) == Ok::<nat, NumberFault>(setting),
                };
            let text = |variable: Option<String>, default: Seq<char>, setting: Seq<char>|
                match variable {
                    None => setting == default,
                    Some(s) => setting == s@,
                };
            &&& env.ipinfo_keys matches Some(raw) && text::texts(config.keys@) == key_list(raw@)
            &&& number(env.port, 8080, u16::MAX as nat, config.port as nat)
            &&& text(env.host, "0.0.0.0"@, config.host@)
            &&& number(
                env.cooldown_seconds,
                60,
                u64::MAX as nat,
                config.cooldown_seconds as nat,
            )
            &&& number(
                env.request_timeout_ms,
                5000,
                u64::MAX as nat,
                config.request_timeout_ms as nat,
            )
            &&& number(
                env.cache_ttl_seconds,
                300,
                u64::MAX as nat,
                config.cache_ttl_seconds as nat,
            )
            &&& number(
                env.cache_max_entries,
                10000,
                usize::MAX as nat,
                config.cache_max_entries as nat,
            )
            &&& number(
                env.cache_max_body_bytes,
                32768,
                usize::MAX as nat,
                config.cache_max_body_bytes as nat,
            )
            &&& text(env.log_level, "info"@, config.log_level@)
            &&& text(env.log_format, "text"@, config.log_format@)
            &&& text(env.ipinfo_base_url, "https://ipinfo.io"@, config.ipinfo_base_url@)
            &&& config.redact_keys == flag_setting(env.redact_keys)
        }),
{
}

/// The environment is refused exactly if there is no key or a number cannot be read, and what is
/// said is the problem of the first variable that has one: the keys, then the numbers in order.
pub proof fn law_first_problem_is_told(env: Env)
    ensures
        ({
            let bad = |variable: Option<String>, max: nat|
                variable matches Some(s) && text::number(s@, max) is Err;
            let said = |variable: Option<String>, name: Seq<char>, max: nat|
                match number_setting(variable, name, 0, max) {
                    Ok(_) => None,
                    Err(problem) => Some(problem),
                };
            let told = first_problem(env.checks());
            if env.ipinfo_keys is None {
                told == Some("IPINFO_KEYS is required but not set"@)
            } else if key_list(env.ipinfo_keys->0@).len() == 0 {
                told == Some("IPINFO_KEYS must contain at least one key"@)
            } else if bad(env.port, u16::MAX as nat) {
                told is Some && told == said(env.port, "PORT"@, u16::MAX as nat)
            } else if bad(env.cooldown_seconds, u64::MAX as nat) {
                told is Some && told == said(
                    env.cooldown_seconds,
                    "COOLDOWN_SECONDS"@,
                    u64::MAX as nat,
                )
            } else if bad(env.request_timeout_ms, u64::MAX as nat) {
                told is Some && told == said(
                    env.request_timeout_ms,
                    "REQUEST_TIMEOUT_MS"@,
                    u64::MAX as nat,
                )
            } else if bad(env.cache_ttl_seconds, u64::MAX as nat) {
                told is Some && told == said(
                    env.cache_ttl_seconds,
                    "CACHE_TTL_SECONDS"@,
                    u64::MAX as nat,
                )
            } else if bad(env.cache_max_entries, usize::MAX as nat) {
                told is Some && told == said(
                    env.cache_max_entries,
                    "CACHE_MAX_ENTRIES"@,
                    usize::MAX as nat,
                )
            } else if bad(env.cache_max_body_bytes, usize::MAX as nat) {
                told is Some && told == said(
                    env.cache_max_body_bytes,
                    "CACHE_MAX_BODY_BYTES"@,
                    usize::MAX as nat,
                )
            } else {
                told is None
            }
        }),
{
    reveal_with_fuel(first_problem, 8);
}

/// A text setting is what its variable holds, or the default where it is not set, and a fault of a
/// number is told in words.
pub proof fn law_text_setting_is_the_text_held(variable: Option<String>, default: Seq<char>)
    ensures
        variable matches Some(s) ==> text_setting(variable, default) == s@,
        variable is None ==> text_setting(variable, default) == default,
        fault_text(NumberFault::Empty) == "cannot parse integer from empty string"@,
        fault_text(NumberFault::InvalidDigit) == "invalid digit found in string"@,
        fault_text(NumberFault::TooLarge) == "number too large to fit in target type"@,
{
}

} // verus!
