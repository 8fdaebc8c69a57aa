//! Reader for Projecteur's `KConfig`-compatible INI file.
//!
//! Values are kept as text, so that settings this library does not interpret
//! stay available. Groups and the keys within a group are kept in text order,
//! each once.

use vstd::prelude::*;

use crate::order::{assoc_get, assoc_put, compare_chars, keys_sorted, lemma_assoc_put, lex_lt};
use crate::text::{
    chars_of, lines, lines_of, push_decimal, push_text, split_once, split_once_chars, string_of,
    lemma_trim_idempotent, trim, trim_chars, views,
};

verus! {

/// The entries of one group, as text pairs.
pub open spec fn group_entries(s: Seq<(String, String)>) -> Seq<(Seq<char>, Seq<char>)> {
    s.map_values(|e: (String, String)| (e.0@, e.1@))
}

/// One named `KConfig` group and its raw key/value entries.
#[derive(Debug, PartialEq, Eq)]
pub struct ConfigGroup {
    entries: Vec<(String, String)>,
}

impl View for ConfigGroup {
    type V = Seq<(Seq<char>, Seq<char>)>;

    closed spec fn view(&self) -> Seq<(Seq<char>, Seq<char>)> {
        group_entries(self.entries@)
    }
}

/// The groups of a configuration, each with its entries.
pub open spec fn config_groups(s: Seq<(String, ConfigGroup)>) -> Seq<
    (Seq<char>, Seq<(Seq<char>, Seq<char>)>),
> {
    s.map_values(|e: (String, ConfigGroup)| (e.0@, e.1@))
}

/// An in-memory representation of a `projecteurrc` file.
#[derive(Debug, PartialEq, Eq)]
pub struct ProjecteurConfig {
    groups: Vec<(String, ConfigGroup)>,
}

impl View for ProjecteurConfig {
    type V = Seq<(Seq<char>, Seq<(Seq<char>, Seq<char>)>)>;

    closed spec fn view(&self) -> Seq<(Seq<char>, Seq<(Seq<char>, Seq<char>)>)> {
        config_groups(self.groups@)
    }
}

/// Failure to read or parse a Projecteur configuration file.
#[derive(Debug, PartialEq, Eq)]
pub enum ConfigError {
    /// The selected file could not be read.
    Io { path: String, reason: String },
    /// A document line is not valid KConfig-style INI syntax.
    Parse { line: usize, message: String },
}

/// The text of a configuration error.
pub open spec fn config_error_text(e: ConfigError) -> Seq<char> {
    match e {
        ConfigError::Io { path, reason } => "cannot read "@ + path@ + ": "@ + reason@,
        ConfigError::Parse { line, message } => "line "@ + crate::text::decimal(line as nat)
            + ": "@ + message@,
    }
}

impl ConfigError {
    /// The error as a message: `line N: ...` for a parse error.
    pub fn to_string(&self) -> (s: String)
        ensures
            s@ == config_error_text(*self),
    {
        let mut s = String::new();
        match self {
            ConfigError::Io { path, reason } => {
                push_text(&mut s, "cannot read ");
                push_text(&mut s, path.as_str());
                push_text(&mut s, ": ");
                push_text(&mut s, reason.as_str());
            },
            ConfigError::Parse { line, message } => {
                push_text(&mut s, "line ");
                push_decimal(&mut s, *line as u64);
                push_text(&mut s, ": ");
                push_text(&mut s, message.as_str());
            },
        }
        s
    }
}

/// Configuration groups as text.
pub open spec fn no_groups() -> Seq<(Seq<char>, Seq<(Seq<char>, Seq<char>)>)> {
    Seq::empty()
}

/// `groups` with a group `name`, added empty if it was not there.
pub open spec fn with_group(
    groups: Seq<(Seq<char>, Seq<(Seq<char>, Seq<char>)>)>,
    name: Seq<char>,
) -> Seq<(Seq<char>, Seq<(Seq<char>, Seq<char>)>)> {
    match assoc_get(groups, name) {
        Some(_) => groups,
        None => assoc_put(groups, name, Seq::empty()),
    }
}

/// `groups` with `key` of group `name` set to `value`.
pub open spec fn with_value(
    groups: Seq<(Seq<char>, Seq<(Seq<char>, Seq<char>)>)>,
    name: Seq<char>,
    key: Seq<char>,
    value: Seq<char>,
) -> Seq<(Seq<char>, Seq<(Seq<char>, Seq<char>)>)> {
    let group = match assoc_get(groups, name) {
        Some(g) => g,
        None => Seq::empty(),
    };
    assoc_put(groups, name, assoc_put(group, key, value))
}

/// The effect of one line on the groups read so far and the current group,
/// or the line's error: its number and message.
pub open spec fn config_line(
    groups: Seq<(Seq<char>, Seq<(Seq<char>, Seq<char>)>)>,
    current: Seq<char>,
    line_no: nat,
    raw: Seq<char>,
) -> Result<(Seq<(Seq<char>, Seq<(Seq<char>, Seq<char>)>)>, Seq<char>), (nat, Seq<char>)> {
    let line = trim(raw);
    if line.len() == 0 || line[0] == '#' || line[0] == ';' {
        Ok((groups, current))
    } else if line[0] == '[' {
        let inner = line.drop_first();
        if !(inner.len() > 0 && inner.last() == ']') {
            Err((line_no, "unterminated group header"@))
        } else if inner.len() == 1 {
            Err((line_no, "empty group name"@))
        } else {
            let name = inner.drop_last();
            Ok((with_group(groups, name), name))
        }
    } else {
        match split_once(raw, '=') {
            None => Err((line_no, "expected key=value entry"@)),
            Some((k, v)) => if trim(k).len() == 0 {
                Err((line_no, "empty key"@))
            } else {
                Ok((with_value(groups, current, trim(k), trim(v)), current))
            },
        }
    }
}

/// The state after the first `k` lines, or the first error among them.
pub open spec fn config_prefix(ls: Seq<Seq<char>>, k: nat) -> Result<
    (Seq<(Seq<char>, Seq<(Seq<char>, Seq<char>)>)>, Seq<char>),
    (nat, Seq<char>),
>
    decreases k,
{
    if k == 0 {
        Ok((no_groups(), "General"@))
    } else {
        match config_prefix(ls, (k - 1) as nat) {
            Err(e) => Err(e),
            Ok((g, c)) => config_line(g, c, k, ls[k - 1]),
        }
    }
}

/// The groups a document holds, or its first error. Entries before the
/// first group header belong to `General`; a later entry for a key replaces
/// an earlier one.
pub open spec fn parse_document(text: Seq<char>) -> Result<
    Seq<(Seq<char>, Seq<(Seq<char>, Seq<char>)>)>,
    (nat, Seq<char>),
> {
    match config_prefix(lines(text), lines(text).len()) {
        Ok((g, _)) => Ok(g),
        Err(e) => Err(e),
    }
}

/// The views of a list of text-keyed items.
pub open spec fn keyed<T: View>(s: Seq<(String, T)>) -> Seq<(Seq<char>, T::V)> {
    s.map_values(|e: (String, T)| (e.0@, e.1@))
}

proof fn lemma_keyed_skip<T: View>(s: Seq<(String, T)>, i: int)
    requires
        0 <= i < s.len(),
    ensures
        keyed(s).skip(i) =~= seq![(s[i].0@, s[i].1@)] + keyed(s).skip(i + 1),
{
}

/// The position of the entry that `assoc_get` reads for `key`.
pub(crate) fn find_key<T: View>(list: &Vec<(String, T)>, key: &[char]) -> (r: Option<usize>)
    ensures
        match r {
            Some(i) => i < list@.len() && list@[i as int].0@ == key@ && assoc_get(
                keyed(list@),
                key@,
            ) == Some(list@[i as int].1@),
            None => assoc_get(keyed(list@), key@) is None,
        },
{
    let mut i: usize = 0;
    assert(keyed(list@).skip(0) =~= keyed(list@));
    while i < list.len()
        invariant
            i <= list@.len(),
            assoc_get(keyed(list@), key@) == assoc_get(keyed(list@).skip(i as int), key@),
        decreases list@.len() - i,
    {
        let name = chars_of(list[i].0.as_str());
        proof {
            lemma_keyed_skip(list@, i as int);
        }
        if compare_chars(name.as_slice(), key) == 0 {
            return Some(i);
        }
        assert((seq![(list@[i as int].0@, list@[i as int].1@)] + keyed(list@).skip(i + 1)).drop_first()
            =~= keyed(list@).skip(i + 1));
        i = i + 1;
    }
    None
}

/// Store `value` under `key`, as `assoc_put` does.
pub(crate) fn put_key<T: View>(list: &mut Vec<(String, T)>, key: &[char], value: T)
    ensures
        keyed(final(list)@) == assoc_put(keyed(old(list)@), key@, value@),
{
    let ghost orig = keyed(list@);
    let mut i: usize = 0;
    assert(orig.skip(0) =~= orig);
    assert(orig.take(0) + assoc_put(orig.skip(0), key@, value@) =~= assoc_put(orig, key@, value@));
    while i < list.len()
        invariant
            i <= list@.len(),
            keyed(list@) == orig,
            orig == keyed(old(list)@),
            assoc_put(orig, key@, value@) == orig.take(i as int) + assoc_put(
                orig.skip(i as int),
                key@,
                value@,
            ),
        decreases list@.len() - i,
    {
        let name = chars_of(list[i].0.as_str());
        proof {
            lemma_keyed_skip(list@, i as int);
        }
        let ghost rest = orig.skip(i as int);
        assert(rest[0] == (list@[i as int].0@, list@[i as int].1@));
        assert(rest.drop_first() =~= orig.skip(i + 1));
        let c = compare_chars(key, name.as_slice());
        if c == 0 {
            let ghost before = list@;
            list.set(i, (string_of(key), value));
            assert(keyed(list@) =~= orig.take(i as int) + (seq![(key@, value@)] + rest.drop_first()));
            return ;
        } else if c < 0 {
            list.insert(i, (string_of(key), value));
            assert(keyed(list@) =~= orig.take(i as int) + (seq![(key@, value@)] + rest));
            return ;
        }
        assert(orig.take(i + 1) =~= orig.take(i as int).push(rest[0]));
        assert(orig.take(i as int) + assoc_put(rest, key@, value@) =~= orig.take(i + 1)
            + assoc_put(orig.skip(i + 1), key@, value@));
        i = i + 1;
    }
    assert(orig.skip(i as int) =~= Seq::<(Seq<char>, T::V)>::empty());
    assert(orig.take(i as int) =~= orig);
    list.push((string_of(key), value));
    assert(keyed(list@) =~= orig + seq![(key@, value@)]);
}

impl ConfigGroup {
    /// An empty group.
    pub fn new() -> (g: ConfigGroup)
        ensures
            g@ == Seq::<(Seq<char>, Seq<char>)>::empty(),
    {
        let g = ConfigGroup { entries: Vec::new() };
        assert(g@ =~= Seq::<(Seq<char>, Seq<char>)>::empty());
        g
    }

    /// The entries, in key order.
    pub fn entries(&self) -> (e: &[(String, String)])
        ensures
            group_entries(e@) == self@,
    {
        self.entries.as_slice()
    }

    /// The number of entries.
    pub fn len(&self) -> (n: usize)
        ensures
            n == self@.len(),
    {
        self.entries.len()
    }

    /// The raw value stored under `key`.
    pub fn get(&self, key: &str) -> (r: Option<&str>)
        ensures
            match assoc_get(self@, key@) {
                Some(v) => r matches Some(s) && s@ == v,
                None => r is None,
            },
    {
        let k = chars_of(key);
        assert(keyed(self.entries@) =~= self@);
        match find_key(&self.entries, k.as_slice()) {
            Some(i) => Some(self.entries[i].1.as_str()),
            None => None,
        }
    }

    fn copy(&self) -> (g: ConfigGroup)
        ensures
            g@ == self@,
    {
        let mut entries: Vec<(String, String)> = Vec::new();
        let mut i: usize = 0;
        while i < self.entries.len()
            invariant
                i <= self.entries@.len(),
                group_entries(entries@) == group_entries(self.entries@).take(i as int),
            decreases self.entries@.len() - i,
        {
            let k = self.entries[i].0.clone();
            let v = self.entries[i].1.clone();
            let ghost prev = entries@;
            entries.push((k, v));
            assert(group_entries(entries@) =~= group_entries(prev).push(
                (self.entries@[i as int].0@, self.entries@[i as int].1@),
            ));
            assert(group_entries(self.entries@).take(i + 1) =~= group_entries(self.entries@).take(
                i as int,
            ).push((self.entries@[i as int].0@, self.entries@[i as int].1@)));
            i = i + 1;
            assert(group_entries(entries@) =~= group_entries(self.entries@).take(i as int));
        }
        assert(group_entries(self.entries@).take(i as int) =~= group_entries(self.entries@));
        ConfigGroup { entries }
    }
}

impl Default for ProjecteurConfig {
    fn default() -> (c: Self)
        ensures
            c@ == no_groups(),
    {
        let c = ProjecteurConfig { groups: Vec::new() };
        assert(c@ =~= no_groups());
        c
    }
}

fn add_group(groups: &mut Vec<(String, ConfigGroup)>, name: &[char])
    ensures
        config_groups(final(groups)@) == with_group(config_groups(old(groups)@), name@),
{
    assert(keyed(groups@) =~= config_groups(groups@));
    match find_key(groups, name) {
        Some(_) => {},
        None => {
            put_key(groups, name, ConfigGroup::new());
            assert(keyed(groups@) =~= config_groups(groups@));
        },
    }
}

fn set_entry(groups: &mut Vec<(String, ConfigGroup)>, name: &[char], key: &[char], value: &[char])
    ensures
        config_groups(final(groups)@) == with_value(
            config_groups(old(groups)@),
            name@,
            key@,
            value@,
        ),
{
    assert(keyed(groups@) =~= config_groups(groups@));
    let mut group = match find_key(groups, name) {
        Some(i) => groups[i].1.copy(),
        None => ConfigGroup::new(),
    };
    assert(keyed(group.entries@) =~= group@);
    put_key(&mut group.entries, key, string_of(value));
    assert(keyed(group.entries@) =~= group@);
    put_key(groups, name, group);
    assert(keyed(groups@) =~= config_groups(groups@));
}

fn apply_line(
    groups: &mut Vec<(String, ConfigGroup)>,
    current: &mut Vec<char>,
    line_no: usize,
    raw: &[char],
) -> (r: Result<(), ConfigError>)
    ensures
        match config_line(config_groups(old(groups)@), old(current)@, line_no as nat, raw@) {
            Ok((g, c)) => r is Ok && config_groups(final(groups)@) == g && final(current)@ == c,
            Err((l, m)) => r matches Err(ConfigError::Parse { line, message }) && line == l
                && message@ == m,
        },
{
    let line = trim_chars(raw);
    let n = line.len();
    if n == 0 || line[0] == '#' || line[0] == ';' {
        return Ok(());
    }
    if line[0] == '[' {
        if !(n >= 2 && line[n - 1] == ']') {
            return Err(
                ConfigError::Parse { line: line_no, message: "unterminated group header".to_owned() },
            );
        }
        if n == 2 {
            return Err(ConfigError::Parse { line: line_no, message: "empty group name".to_owned() });
        }
        let name = crate::text::sub_chars(line.as_slice(), 1, n - 1);
        assert(name@ =~= line@.drop_first().drop_last());
        add_group(groups, name.as_slice());
        *current = name;
        return Ok(());
    }
    match split_once_chars(raw, '=') {
        None => Err(
            ConfigError::Parse { line: line_no, message: "expected key=value entry".to_owned() },
        ),
        Some((k, v)) => {
            let key = trim_chars(k.as_slice());
            if key.len() == 0 {
                return Err(ConfigError::Parse { line: line_no, message: "empty key".to_owned() });
            }
            let value = trim_chars(v.as_slice());
            set_entry(groups, current.as_slice(), key.as_slice(), value.as_slice());
            Ok(())
        },
    }
}

proof fn lemma_config_error_stays(ls: Seq<Seq<char>>, k: nat, n: nat, e: (nat, Seq<char>))
    requires
        k <= n,
        config_prefix(ls, k) matches Err(x) && x == e,
    ensures
        config_prefix(ls, n) matches Err(x) && x == e,
    decreases n - k,
{
    if k < n {
        lemma_config_error_stays(ls, k + 1, n, e);
    }
}

impl ProjecteurConfig {
    /// Parse a KConfig-compatible document.
    ///
    /// Entries before the first explicit group belong to `General`. Blank
    /// lines and lines starting with `#` or `;` are skipped. Fails with the
    /// first malformed line's number and one of the messages `unterminated
    /// group header`, `empty group name`, `expected key=value entry` and
    /// `empty key`.
    pub fn parse(input: &str) -> (r: Result<ProjecteurConfig, ConfigError>)
        ensures
            match parse_document(input@) {
                Ok(g) => r matches Ok(c) && c@ == g,
                Err((l, m)) => r matches Err(ConfigError::Parse { line, message }) && line == l
                    && message@ == m,
            },
    {
        let text = chars_of(input);
        let ls = lines_of(text.as_slice());
        let ghost lv = views(ls@);
        let mut groups: Vec<(String, ConfigGroup)> = Vec::new();
        let mut current: Vec<char> = chars_of("General");
        let mut i: usize = 0;
        assert(config_groups(groups@) =~= no_groups());
        while i < ls.len()
            invariant
                i <= ls@.len(),
                lv == views(ls@),
                lv == lines(input@),
                config_prefix(lv, i as nat) == Ok::<
                    (Seq<(Seq<char>, Seq<(Seq<char>, Seq<char>)>)>, Seq<char>),
                    (nat, Seq<char>),
                >((config_groups(groups@), current@)),
            decreases ls@.len() - i,
        {
            assert(lv[i as int] == ls@[i as int]@);
            let line_no = i + 1;
            match apply_line(&mut groups, &mut current, line_no, ls[i].as_slice()) {
                Ok(()) => {},
                Err(e) => {
                    proof {
                        let ghost x = config_prefix(lv, (i + 1) as nat);
                        lemma_config_error_stays(lv, (i + 1) as nat, lv.len(), x->Err_0);
                    }
                    return Err(e);
                },
            }
            i = i + 1;
        }
        Ok(ProjecteurConfig { groups })
    }

    /// All parsed groups in name order, including groups this library does
    /// not interpret.
    pub fn groups(&self) -> (g: &[(String, ConfigGroup)])
        ensures
            config_groups(g@) == self@,
    {
        self.groups.as_slice()
    }

    /// One raw group by name.
    pub fn group(&self, name: &str) -> (r: Option<&ConfigGroup>)
        ensures
            match assoc_get(self@, name@) {
                Some(g) => r matches Some(x) && x@ == g,
                None => r is None,
            },
    {
        let k = chars_of(name);
        assert(keyed(self.groups@) =~= self@);
        match find_key(&self.groups, k.as_slice()) {
            Some(i) => Some(&self.groups[i].1),
            None => None,
        }
    }

    /// One raw value, without interpreting its type.
    pub fn value(&self, group: &str, key: &str) -> (r: Option<&str>)
        ensures
            match value_at(self@, group@, key@) {
                Some(v) => r matches Some(s) && s@ == v,
                None => r is None,
            },
    {
        match self.group(group) {
            Some(g) => g.get(key),
            None => None,
        }
    }

    /// Set `key` of group `group` to `value`, adding the group if needed.
    pub fn set_value(&mut self, group: &str, key: &str, value: &str)
        ensures
            final(self)@ == with_value(old(self)@, group@, key@, value@),
    {
        let g = chars_of(group);
        let k = chars_of(key);
        let v = chars_of(value);
        set_entry(&mut self.groups, g.as_slice(), k.as_slice(), v.as_slice());
    }
}

/// Each group name occurs once, in text order, and so does each key of a
/// group.
pub open spec fn config_wf(g: Seq<(Seq<char>, Seq<(Seq<char>, Seq<char>)>)>) -> bool {
    keys_sorted(g) && forall|i: int| 0 <= i < g.len() ==> keys_sorted(#[trigger] g[i].1)
}

/// The value stored under `key` in group `name`.
pub open spec fn value_at(
    g: Seq<(Seq<char>, Seq<(Seq<char>, Seq<char>)>)>,
    name: Seq<char>,
    key: Seq<char>,
) -> Option<Seq<char>> {
    match assoc_get(g, name) {
        Some(group) => assoc_get(group, key),
        None => None,
    }
}

proof fn lemma_prefix_wf(ls: Seq<Seq<char>>, k: nat)
    ensures
        config_prefix(ls, k) matches Ok((g, _)) ==> config_wf(g),
    decreases k,
{
    if k > 0 {
        lemma_prefix_wf(ls, (k - 1) as nat);
        if let Ok((g, c)) = config_prefix(ls, (k - 1) as nat) {
            let raw = ls[k - 1];
            let line = trim(raw);
            if line.len() == 0 || line[0] == '#' || line[0] == ';' {
            } else if line[0] == '[' {
                let inner = line.drop_first();
                if inner.len() > 1 && inner.last() == ']' {
                    let name = inner.drop_last();
                    if assoc_get(g, name) is None {
                        lemma_assoc_put(g, name, Seq::<(Seq<char>, Seq<char>)>::empty());
                        lemma_put_keeps_groups_sorted(g, name, Seq::empty());
                    }
                }
            } else if let Some((key, v)) = split_once(raw, '=') {
                lemma_value_after_set(g, c, trim(key), trim(v));
            }
        }
    }
}

/// A parsed configuration holds each group once and each key of a group
/// once, all in text order.
pub proof fn lemma_parsed_config_wf(text: Seq<char>)
    ensures
        parse_document(text) matches Ok(g) ==> config_wf(g),
{
    lemma_prefix_wf(lines(text), lines(text).len());
}

/// Reading back a value just written gives that value; every other value
/// stays as it was, and the configuration keeps each group and key once,
/// in text order.
pub proof fn lemma_value_after_set(
    g: Seq<(Seq<char>, Seq<(Seq<char>, Seq<char>)>)>,
    name: Seq<char>,
    key: Seq<char>,
    value: Seq<char>,
)
    requires
        config_wf(g),
    ensures
        config_wf(with_value(g, name, key, value)),
        value_at(with_value(g, name, key, value), name, key) == Some(value),
        forall|n2: Seq<char>, k2: Seq<char>|
            !(n2 == name && k2 == key) ==> #[trigger] value_at(with_value(g, name, key, value), n2, k2)
                == value_at(g, n2, k2),
{
    let group = match assoc_get(g, name) {
        Some(x) => x,
        None => Seq::<(Seq<char>, Seq<char>)>::empty(),
    };
    lemma_get_sorted(g, name);
    lemma_assoc_put(group, key, value);
    let group2 = assoc_put(group, key, value);
    lemma_assoc_put(g, name, group2);
    lemma_put_keeps_groups_sorted(g, name, group2);
    let g2 = with_value(g, name, key, value);
    assert forall|n2: Seq<char>, k2: Seq<char>|
        !(n2 == name && k2 == key) implies #[trigger] value_at(g2, n2, k2) == value_at(g, n2, k2) by {
        if n2 != name {
            assert(assoc_get(g2, n2) == assoc_get(g, n2));
        } else {
            assert(assoc_get(group2, k2) == assoc_get(group, k2));
        }
    }
}

/// Every entry of `l` satisfies `p`.
pub open spec fn all_entries<V>(l: Seq<(Seq<char>, V)>, p: spec_fn((Seq<char>, V)) -> bool) -> bool {
    forall|j: int| 0 <= j < l.len() ==> p(#[trigger] l[j])
}

proof fn lemma_put_all<V>(l: Seq<(Seq<char>, V)>, k: Seq<char>, v: V, p: spec_fn((Seq<char>, V)) -> bool)
    requires
        all_entries(l, p),
        p((k, v)),
    ensures
        all_entries(assoc_put(l, k, v), p),
    decreases l.len(),
{
    let r = assoc_put(l, k, v);
    if l.len() == 0 {
    } else if l[0].0 == k {
        assert forall|j: int| 0 <= j < r.len() implies p(#[trigger] r[j]) by {
            if j > 0 {
                assert(r[j] == l[j]);
            }
        }
    } else if lex_lt(k, l[0].0) {
        assert forall|j: int| 0 <= j < r.len() implies p(#[trigger] r[j]) by {
            if j > 0 {
                assert(r[j] == l[j - 1]);
            }
        }
    } else {
        let rest = l.drop_first();
        assert forall|j: int| 0 <= j < rest.len() implies p(#[trigger] rest[j]) by {
            assert(rest[j] == l[j + 1]);
        }
        lemma_put_all(rest, k, v, p);
        let t = assoc_put(rest, k, v);
        assert(r == seq![l[0]] + t);
        assert forall|j: int| 0 <= j < r.len() implies p(#[trigger] r[j]) by {
            if j == 0 {
                assert(r[j] == l[0]);
            } else {
                assert(r[j] == t[j - 1]);
            }
        }
    }
}

proof fn lemma_get_all<V>(l: Seq<(Seq<char>, V)>, k: Seq<char>, p: spec_fn((Seq<char>, V)) -> bool)
    requires
        all_entries(l, p),
    ensures
        assoc_get(l, k) matches Some(x) ==> p((k, x)),
    decreases l.len(),
{
    if l.len() > 0 {
        if l[0].0 == k {
            assert(p(l[0]));
            assert(l[0] == (k, l[0].1));
        } else {
            let rest = l.drop_first();
            assert forall|j: int| 0 <= j < rest.len() implies p(#[trigger] rest[j]) by {
                assert(rest[j] == l[j + 1]);
            }
            lemma_get_all(rest, k, p);
        }
    }
}

/// The key and the value of an entry are both trimmed.
pub open spec fn entry_trimmed(e: (Seq<char>, Seq<char>)) -> bool {
    trim(e.0) == e.0 && trim(e.1) == e.1
}

/// Every entry of the group is trimmed.
pub open spec fn group_trimmed(e: (Seq<char>, Seq<(Seq<char>, Seq<char>)>)) -> bool {
    all_entries(e.1, |x: (Seq<char>, Seq<char>)| entry_trimmed(x))
}

proof fn lemma_prefix_trimmed(ls: Seq<Seq<char>>, k: nat)
    ensures
        config_prefix(ls, k) matches Ok((g, _)) ==> all_entries(
            g,
            |e: (Seq<char>, Seq<(Seq<char>, Seq<char>)>)| group_trimmed(e),
        ),
    decreases k,
{
    let pg = |e: (Seq<char>, Seq<(Seq<char>, Seq<char>)>)| group_trimmed(e);
    let pe = |x: (Seq<char>, Seq<char>)| entry_trimmed(x);
    if k > 0 {
        lemma_prefix_trimmed(ls, (k - 1) as nat);
        if let Ok((g, c)) = config_prefix(ls, (k - 1) as nat) {
            let raw = ls[k - 1];
            let line = trim(raw);
            if line.len() == 0 || line[0] == '#' || line[0] == ';' {
            } else if line[0] == '[' {
                let inner = line.drop_first();
                if inner.len() > 1 && inner.last() == ']' {
                    let name = inner.drop_last();
                    if assoc_get(g, name) is None {
                        assert(pg((name, Seq::<(Seq<char>, Seq<char>)>::empty())));
                        lemma_put_all(g, name, Seq::<(Seq<char>, Seq<char>)>::empty(), pg);
                    }
                }
            } else if let Some((key, v)) = split_once(raw, '=') {
                lemma_trim_idempotent(key);
                lemma_trim_idempotent(v);
                let group = match assoc_get(g, c) {
                    Some(x) => x,
                    None => Seq::<(Seq<char>, Seq<char>)>::empty(),
                };
                lemma_get_all(g, c, pg);
                assert(all_entries(group, pe));
                assert(pe((trim(key), trim(v))));
                lemma_put_all(group, trim(key), trim(v), pe);
                let group2 = assoc_put(group, trim(key), trim(v));
                assert(pg((c, group2)));
                lemma_put_all(g, c, group2, pg);
            }
        }
    }
}

/// Every key and every value a parsed configuration holds is trimmed: for a
/// line `key = value` the stored key and value carry no surrounding
/// whitespace.
pub proof fn lemma_parsed_entries_trimmed(text: Seq<char>)
    ensures
        parse_document(text) matches Ok(g) ==> forall|i: int, j: int|
            0 <= i < g.len() && 0 <= j < g[i].1.len() ==> trim(#[trigger] g[i].1[j].0)
                == g[i].1[j].0 && trim(g[i].1[j].1) == g[i].1[j].1,
{
    lemma_prefix_trimmed(lines(text), lines(text).len());
    if let Ok(g) = parse_document(text) {
        assert forall|i: int, j: int| 0 <= i < g.len() && 0 <= j < g[i].1.len() implies trim(
            #[trigger] g[i].1[j].0,
        ) == g[i].1[j].0 && trim(g[i].1[j].1) == g[i].1[j].1 by {
            assert(group_trimmed(g[i]));
            assert(entry_trimmed(g[i].1[j]));
        }
    }
}

proof fn lemma_get_sorted(g: Seq<(Seq<char>, Seq<(Seq<char>, Seq<char>)>)>, name: Seq<char>)
    requires
        forall|i: int| 0 <= i < g.len() ==> keys_sorted(#[trigger] g[i].1),
    ensures
        assoc_get(g, name) matches Some(x) ==> keys_sorted(x),
    decreases g.len(),
{
    if g.len() > 0 && g[0].0 != name {
        let t = g.drop_first();
        assert forall|i: int| 0 <= i < t.len() implies keys_sorted(#[trigger] t[i].1) by {
            assert(t[i] == g[i + 1]);
        }
        lemma_get_sorted(t, name);
    }
}

proof fn lemma_put_keeps_groups_sorted(
    g: Seq<(Seq<char>, Seq<(Seq<char>, Seq<char>)>)>,
    name: Seq<char>,
    x: Seq<(Seq<char>, Seq<char>)>,
)
    requires
        keys_sorted(x),
        forall|i: int| 0 <= i < g.len() ==> keys_sorted(#[trigger] g[i].1),
    ensures
        forall|i: int|
            0 <= i < assoc_put(g, name, x).len() ==> keys_sorted(#[trigger] assoc_put(g, name, x)[i].1),
    decreases g.len(),
{
    let r = assoc_put(g, name, x);
    if g.len() == 0 {
    } else if g[0].0 == name {
        assert forall|i: int| 0 <= i < r.len() implies keys_sorted(#[trigger] r[i].1) by {
            if i > 0 {
                assert(r[i] == g[i]);
            }
        }
    } else if crate::order::lex_lt(name, g[0].0) {
        assert forall|i: int| 0 <= i < r.len() implies keys_sorted(#[trigger] r[i].1) by {
            if i > 0 {
                assert(r[i] == g[i - 1]);
            }
        }
    } else {
        let t = g.drop_first();
        assert forall|i: int| 0 <= i < t.len() implies keys_sorted(#[trigger] t[i].1) by {
            assert(t[i] == g[i + 1]);
        }
        lemma_put_keeps_groups_sorted(t, name, x);
        let rt = assoc_put(t, name, x);
        assert forall|i: int| 0 <= i < r.len() implies keys_sorted(#[trigger] r[i].1) by {
            if i > 0 {
                assert(r[i] == rt[i - 1]);
            }
        }
    }
}

} // verus!
