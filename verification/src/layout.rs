//! Keyboard-layout monitoring: alias resolution and layout-state tracking.

use crate::Format;
use vstd::prelude::*;

verus! {

/// Keyboard layout monitor configuration.
///
/// Produces to stdout messages about keyboard layout actions.
#[derive(Debug, Clone)]
pub struct Layout {
    /// Aliases for languages.
    ///
    /// Each entry pairs a source name (matched case-insensitively) with the
    /// display string to use in its place.
    pub aliases: Vec<(String, String)>,
}

/// Keyboard layout switcher configuration.
///
/// Switches the keyboard layout. The command itself carries no data: the
/// surrounding binary sends the one switch request over the socket.
#[derive(Debug, Clone)]
pub struct SwitchLayout {}

/// Whether `c` has the Unicode `White_Space` property, as `char::is_whitespace`
/// decides it.
pub open spec fn ws_char(c: char) -> bool {
    c == ' ' || c == '\t' || c == '\n' || c == '\u{0B}' || c == '\u{0C}' || c == '\r'
        || c == '\u{85}' || c == '\u{A0}' || c == '\u{1680}'
        || ('\u{2000}' <= c && c <= '\u{200A}')
        || c == '\u{2028}' || c == '\u{2029}' || c == '\u{202F}' || c == '\u{205F}'
        || c == '\u{3000}'
}

/// Executable check for [`ws_char`].
pub fn is_ws(c: char) -> (r: bool)
    ensures
        r == ws_char(c),
{
    c == ' ' || c == '\t' || c == '\n' || c == '\u{0B}' || c == '\u{0C}' || c == '\r'
        || c == '\u{85}' || c == '\u{A0}' || c == '\u{1680}'
        || ('\u{2000}' <= c && c <= '\u{200A}')
        || c == '\u{2028}' || c == '\u{2029}' || c == '\u{202F}' || c == '\u{205F}'
        || c == '\u{3000}'
}

/// No character of `s` is whitespace.
pub open spec fn seq_no_ws(s: Seq<char>) -> bool {
    forall|i: int| 0 <= i < s.len() ==> !ws_char(s[i])
}

/// Every character of `s` is whitespace.
pub open spec fn seq_all_ws(s: Seq<char>) -> bool {
    forall|i: int| 0 <= i < s.len() ==> ws_char(s[i])
}

/// Length of the longest non-whitespace prefix of `s`.
pub open spec fn nonws_prefix(s: Seq<char>) -> int
    decreases s.len(),
{
    if s.len() == 0 || ws_char(s[0]) {
        0
    } else {
        1 + nonws_prefix(s.drop_first())
    }
}

/// Length of the longest whitespace prefix of `s`.
pub open spec fn ws_prefix(s: Seq<char>) -> int
    decreases s.len(),
{
    if s.len() == 0 || !ws_char(s[0]) {
        0
    } else {
        1 + ws_prefix(s.drop_first())
    }
}

/// `nonws_prefix` is the unique boundary with no whitespace before it and
/// whitespace (or the end) at it.
pub proof fn lemma_nonws_prefix_is(s: Seq<char>, m: int)
    requires
        0 <= m <= s.len(),
        forall|k: int| 0 <= k < m ==> !ws_char(s[k]),
        m == s.len() || ws_char(s[m]),
    ensures
        nonws_prefix(s) == m,
    decreases s.len(),
{
    if m == 0 {
    } else {
        assert(!ws_char(s[0]));
        let t = s.drop_first();
        assert forall|k: int| 0 <= k < m - 1 implies !ws_char(t[k]) by {
            assert(t[k] == s[k + 1]);
        }
        if m - 1 < t.len() {
            assert(t[m - 1] == s[m]);
        }
        lemma_nonws_prefix_is(t, m - 1);
    }
}

/// `ws_prefix` is the unique boundary with only whitespace before it and a
/// non-whitespace character (or the end) at it.
pub proof fn lemma_ws_prefix_is(s: Seq<char>, m: int)
    requires
        0 <= m <= s.len(),
        forall|k: int| 0 <= k < m ==> ws_char(s[k]),
        m == s.len() || !ws_char(s[m]),
    ensures
        ws_prefix(s) == m,
    decreases s.len(),
{
    if m == 0 {
    } else {
        assert(ws_char(s[0]));
        let t = s.drop_first();
        assert forall|k: int| 0 <= k < m - 1 implies ws_char(t[k]) by {
            assert(t[k] == s[k + 1]);
        }
        if m - 1 < t.len() {
            assert(t[m - 1] == s[m]);
        }
        lemma_ws_prefix_is(t, m - 1);
    }
}

/// How a raw layout name splits into a full name and an optional alias hint.
///
/// The accepted shape is a non-empty run of non-whitespace characters (the
/// full name), optional whitespace, and an optional parenthesized run of
/// non-whitespace characters (the alias hint). An empty parenthesis still
/// matches but counts as no hint. Anything else fails to parse.
pub open spec fn parse_spec(s: Seq<char>) -> Option<(Seq<char>, Option<Seq<char>>)> {
    let m = nonws_prefix(s);
    if m == 0 {
        None
    } else {
        let rest = s.subrange(m, s.len() as int);
        let t = rest.subrange(ws_prefix(rest), rest.len() as int);
        if t.len() == 0 {
            Some((s.subrange(0, m), None))
        } else if t.len() >= 2 && t[0] == '(' && t[t.len() - 1] == ')' && seq_no_ws(
            t.subrange(1, t.len() - 1),
        ) {
            if t.len() == 2 {
                Some((s.subrange(0, m), None))
            } else {
                Some((s.subrange(0, m), Some(t.subrange(1, t.len() - 1))))
            }
        } else {
            None
        }
    }
}

/// Splits a raw layout name into the full name and the optional alias hint,
/// exactly as [`parse_spec`] describes.
#[verifier::loop_isolation(false)]
pub fn parse_name(s: &str) -> (r: Option<(String, Option<String>)>)
    ensures
        r.deep_view() == parse_spec(s@),
{
    let n = s.unicode_len();
    let mut m: usize = 0;
    while m < n && !is_ws(s.get_char(m))
        invariant
            m <= n,
            n == s@.len(),
            forall|k: int| 0 <= k < m ==> !ws_char(s@[k]),
        decreases n - m,
    {
        m = m + 1;
    }
    proof {
        lemma_nonws_prefix_is(s@, m as int);
    }
    if m == 0 {
        return None;
    }
    let mut j: usize = m;
    while j < n && is_ws(s.get_char(j))
        invariant
            m <= j <= n,
            n == s@.len(),
            forall|k: int| m <= k < j ==> ws_char(s@[k]),
        decreases n - j,
    {
        j = j + 1;
    }
    let ghost rest = s@.subrange(m as int, n as int);
    proof {
        assert forall|k: int| 0 <= k < j - m implies ws_char(rest[k]) by {
            assert(rest[k] == s@[m + k]);
        }
        if j < n {
            assert(rest[j - m] == s@[j as int]);
        }
        lemma_ws_prefix_is(rest, j - m);
        assert(rest.subrange(j - m, rest.len() as int) =~= s@.subrange(j as int, n as int));
    }
    let full = String::from_str(s.substring_char(0, m));
    if j == n {
        return Some((full, None));
    }
    let ghost t = s@.subrange(j as int, n as int);
    if s.get_char(j) == '(' && s.get_char(n - 1) == ')' {
        assert(t[0] == '(' && t[t.len() - 1] == ')');
        assert(j < n - 1);
        let mut p: usize = j + 1;
        while p < n - 1
            invariant
                j + 1 <= p <= n - 1,
                n == s@.len(),
                t == s@.subrange(j as int, n as int),
                forall|k: int| j + 1 <= k < p ==> !ws_char(s@[k]),
            decreases n - p,
        {
            if is_ws(s.get_char(p)) {
                proof {
                    let bad = t.subrange(1, t.len() - 1);
                    assert(bad[p - j - 1] == t[p - j]);
                    assert(t[p - j] == s@[p as int]);
                    assert(ws_char(bad[p - j - 1]));
                    assert(!seq_no_ws(bad));
                }
                return None;
            }
            p = p + 1;
        }
        let ghost inner_view = t.subrange(1, t.len() - 1);
        assert forall|k: int| 0 <= k < inner_view.len() implies !ws_char(#[trigger] inner_view[k]) by {
            assert(inner_view[k] == s@[j + 1 + k]);
        }
        assert(seq_no_ws(inner_view));
        if j + 2 == n {
            Some((full, None))
        } else {
            let inner = String::from_str(s.substring_char(j + 1, n - 1));
            assert(inner@ =~= t.subrange(1, t.len() - 1));
            Some((full, Some(inner)))
        }
    } else {
        if j < n {
            assert(t[0] == s@[j as int]);
        }
        assert(t[t.len() - 1] == s@[n - 1]);
        None
    }
}

/// What `str::to_lowercase` returns: a function of the characters alone.
pub uninterp spec fn lower_of(s: Seq<char>) -> Seq<char>;

/// Relies on str::to_lowercase: the result depends on the characters alone.
#[verifier::external_body]
fn to_lower(s: &str) -> (r: String)
    ensures
        r@ == lower_of(s@),
{
    s.to_lowercase()
}

/// Looks `key` up in an association list where the latest entry wins, as the
/// alias table stores its pairs.
pub open spec fn assoc(table: Seq<(Seq<char>, Seq<char>)>, key: Seq<char>) -> Option<Seq<char>>
    decreases table.len(),
{
    if table.len() == 0 {
        None
    } else if table.last().0 == key {
        Some(table.last().1)
    } else {
        assoc(table.drop_last(), key)
    }
}

/// An alias-table lookup: case-insensitive on the key, which the table stores
/// in its lower-cased form.
pub open spec fn table_lookup(table: Seq<(Seq<char>, Seq<char>)>, key: Seq<char>) -> Option<
    Seq<char>,
> {
    assoc(table, lower_of(key))
}

/// The display string for a raw layout name under an alias table.
///
/// A name that fails to parse is returned unchanged. Otherwise the first of
/// these that applies wins: the table entry for the alias hint, the table
/// entry for the full name, the alias hint verbatim, the full name verbatim.
pub open spec fn resolve_spec(raw: Seq<char>, table: Seq<(Seq<char>, Seq<char>)>) -> Seq<char> {
    match parse_spec(raw) {
        None => raw,
        Some(parts) => match parts.1 {
            Some(alias) => match table_lookup(table, alias) {
                Some(mapped) => mapped,
                None => match table_lookup(table, parts.0) {
                    Some(mapped) => mapped,
                    None => alias,
                },
            },
            None => match table_lookup(table, parts.0) {
                Some(mapped) => mapped,
                None => parts.0,
            },
        },
    }
}

/// Every name of a sequence passed through the resolver.
pub open spec fn resolve_all(
    names: Seq<Seq<char>>,
    table: Seq<(Seq<char>, Seq<char>)>,
) -> Seq<Seq<char>> {
    names.map_values(|n: Seq<char>| resolve_spec(n, table))
}

/// The status-bar line emitted for a display name.
pub open spec fn status_line(name: Seq<char>) -> Seq<char> {
    "{ \"text\": \""@ + name + "\", \"class\": \"layout\" }"@
}

/// The selected index and the emitted line after a switch request: an index
/// within the current list selects it and emits its line; one out of range
/// changes nothing and emits nothing.
pub open spec fn switch_step(names: Seq<Seq<char>>, cur: u8, idx: u8) -> (u8, Option<Seq<char>>) {
    if (idx as int) < names.len() {
        (idx, Some(status_line(names[idx as int])))
    } else {
        (cur, None)
    }
}

/// The full state transition and emission for one incoming event.
pub open spec fn event_step(
    table: Seq<(Seq<char>, Seq<char>)>,
    names: Seq<Seq<char>>,
    cur: u8,
    ev: Event,
) -> (Seq<Seq<char>>, u8, Option<Seq<char>>) {
    match ev {
        Event::KeyboardLayoutsChanged { keyboard_layouts } => {
            let new_names = resolve_all(keyboard_layouts.names.deep_view(), table);
            let st = switch_step(new_names, cur, keyboard_layouts.current_idx);
            (new_names, st.0, st.1)
        },
        Event::KeyboardLayoutSwitched { idx } => {
            let st = switch_step(names, cur, idx);
            (names, st.0, st.1)
        },
        Event::Other => (names, cur, None),
    }
}

/// The configured keyboard layouts: their display names and the index of the
/// currently active one.
#[derive(Debug, Clone)]
pub struct KeyboardLayouts {
    /// Display names of the configured layouts.
    pub names: Vec<String>,
    /// Index of the currently active layout in `names`.
    pub current_idx: u8,
}

/// A compositor event, reduced to what the layout monitor reads.
#[derive(Debug, Clone)]
pub enum Event {
    /// The keyboard layout list changed.
    KeyboardLayoutsChanged {
        /// The new keyboard layout configuration.
        keyboard_layouts: KeyboardLayouts,
    },
    /// The keyboard layout switched.
    KeyboardLayoutSwitched {
        /// Index of the newly active layout.
        idx: u8,
    },
    /// Any event kind the layout monitor ignores.
    Other,
}

/// The layout monitor's state: the alias table, the resolved layout names,
/// and the selected index.
pub struct LayoutRunner {
    /// The alias table: lower-cased source names paired with replacements,
    /// where the latest entry for a key wins.
    pub aliases: Vec<(String, String)>,
    /// The current layout list and selected index.
    pub layouts: KeyboardLayouts,
}

impl LayoutRunner {
    /// The alias table as a sequence of key/value character sequences.
    pub open spec fn table(&self) -> Seq<(Seq<char>, Seq<char>)> {
        self.aliases.deep_view()
    }

    /// The layout display names as character sequences.
    pub open spec fn names_view(&self) -> Seq<Seq<char>> {
        self.layouts.names.deep_view()
    }

    /// Builds a monitor from its configuration: the alias keys are
    /// lower-cased once here, the layout list starts empty.
    #[verifier::loop_isolation(false)]
    pub fn new(config: Layout, format: Format) -> (r: Self)
        requires
            format == Format::Waybar,
        ensures
            r.table() == config.aliases.deep_view().map_values(
                |p: (Seq<char>, Seq<char>)| (lower_of(p.0), p.1),
            ),
            r.names_view() == Seq::<Seq<char>>::empty(),
            r.layouts.current_idx == 0,
    {
        let ghost goal = config.aliases.deep_view().map_values(
            |p: (Seq<char>, Seq<char>)| (lower_of(p.0), p.1),
        );
        let mut aliases: Vec<(String, String)> = Vec::new();
        let mut i: usize = 0;
        while i < config.aliases.len()
            invariant
                i <= config.aliases.len(),
                aliases.deep_view() =~= goal.take(i as int),
            decreases config.aliases.len() - i,
        {
            let key = to_lower(config.aliases[i].0.as_str());
            let value = config.aliases[i].1.clone();
            aliases.push((key, value));
            i = i + 1;
        }
        assert(aliases.deep_view() =~= goal);
        let r = LayoutRunner {
            aliases,
            layouts: KeyboardLayouts { names: Vec::new(), current_idx: 0 },
        };
        assert(r.names_view() =~= Seq::<Seq<char>>::empty());
        r
    }

    /// Looks a name up in the alias table, case-insensitively; `None` in is
    /// `None` out.
    #[verifier::loop_isolation(false)]
    pub fn alias_for(&self, name: Option<&str>) -> (r: Option<String>)
        ensures
            name is None ==> r is None,
            name matches Some(n) ==> r.deep_view() == table_lookup(self.table(), n@),
    {
        match name {
            None => None,
            Some(n) => {
                let key = to_lower(n);
                let mut i: usize = self.aliases.len();
                assert(self.table().take(i as int) =~= self.table());
                while i > 0
                    invariant
                        i <= self.aliases.len(),
                        key@ == lower_of(n@),
                        assoc(self.table().take(i as int), key@) == assoc(self.table(), key@),
                    decreases i,
                {
                    if self.aliases[i - 1].0 == key {
                        proof {
                            let taken = self.table().take(i as int);
                            assert(taken.last() == self.table()[i - 1]);
                            assert(taken.last().0 == self.aliases@[i - 1].0@);
                            assert(assoc(taken, key@) == Some(self.table()[i - 1].1));
                        }
                        return Some(self.aliases[i - 1].1.clone());
                    }
                    assert(self.table().take(i as int).drop_last() =~= self.table().take(
                        i - 1,
                    ));
                    i = i - 1;
                }
                None
            },
        }
    }

    /// Resolves one raw layout name to its display string, as
    /// [`resolve_spec`] describes.
    pub fn alias_layout(&self, name: &str) -> (r: String)
        ensures
            r@ == resolve_spec(name@, self.table()),
    {
        match parse_name(name) {
            None => String::from_str(name),
            Some(parts) => {
                let (full, alias_opt) = parts;
                let alias_hit = match &alias_opt {
                    Some(alias) => self.alias_for(Some(alias.as_str())),
                    None => self.alias_for(None),
                };
                match alias_hit {
                    Some(mapped) => mapped,
                    None => {
                        let full_hit = self.alias_for(Some(full.as_str()));
                        match full_hit {
                            Some(mapped) => mapped,
                            None => match alias_opt {
                                Some(alias) => alias,
                                None => full,
                            },
                        }
                    },
                }
            },
        }
    }

    /// Handles a switch request: an in-range index becomes the selected one
    /// and its line is emitted; an out-of-range index changes nothing and
    /// emits nothing.
    pub fn switched(&mut self, idx: u8) -> (r: Option<String>)
        ensures
            final(self).aliases@ == old(self).aliases@,
            final(self).layouts.names@ == old(self).layouts.names@,
            final(self).layouts.current_idx == switch_step(
                old(self).names_view(),
                old(self).layouts.current_idx,
                idx,
            ).0,
            r.deep_view() == switch_step(
                old(self).names_view(),
                old(self).layouts.current_idx,
                idx,
            ).1,
            idx as int >= old(self).names_view().len() ==> final(self).layouts.current_idx == old(
                self,
            ).layouts.current_idx && r is None,
    {
        if (idx as usize) < self.layouts.names.len() {
            let mut out = String::from_str("{ \"text\": \"");
            out.append(self.layouts.names[idx as usize].as_str());
            out.append("\", \"class\": \"layout\" }");
            self.layouts.current_idx = idx;
            assert(out@ == status_line(old(self).names_view()[idx as int]));
            Some(out)
        } else {
            None
        }
    }

    /// Replaces the layout list with the incoming names, each passed through
    /// the resolver, then handles a switch to the embedded current index.
    #[verifier::loop_isolation(false)]
    pub fn changed(&mut self, layouts: KeyboardLayouts) -> (r: Option<String>)
        ensures
            final(self).aliases@ == old(self).aliases@,
            final(self).names_view() == resolve_all(layouts.names.deep_view(), old(self).table()),
            final(self).layouts.current_idx == switch_step(
                resolve_all(layouts.names.deep_view(), old(self).table()),
                old(self).layouts.current_idx,
                layouts.current_idx,
            ).0,
            r.deep_view() == switch_step(
                resolve_all(layouts.names.deep_view(), old(self).table()),
                old(self).layouts.current_idx,
                layouts.current_idx,
            ).1,
    {
        let ghost goal = resolve_all(layouts.names.deep_view(), self.table());
        let mut resolved: Vec<String> = Vec::new();
        let mut i: usize = 0;
        while i < layouts.names.len()
            invariant
                i <= layouts.names.len(),
                resolved.deep_view() =~= goal.take(i as int),
            decreases layouts.names.len() - i,
        {
            let display = self.alias_layout(layouts.names[i].as_str());
            resolved.push(display);
            i = i + 1;
        }
        assert(resolved.deep_view() =~= goal);
        self.layouts.names = resolved;
        self.switched(layouts.current_idx)
    }

    /// Processes one incoming event, as [`event_step`] describes: a layout
    /// list change replaces the list and emits for its embedded index, a
    /// switch emits for an in-range index, and anything else is ignored.
    pub fn process_event(&mut self, ev: Event) -> (r: Option<String>)
        ensures
            final(self).aliases@ == old(self).aliases@,
            final(self).names_view() == event_step(
                old(self).table(),
                old(self).names_view(),
                old(self).layouts.current_idx,
                ev,
            ).0,
            final(self).layouts.current_idx == event_step(
                old(self).table(),
                old(self).names_view(),
                old(self).layouts.current_idx,
                ev,
            ).1,
            r.deep_view() == event_step(
                old(self).table(),
                old(self).names_view(),
                old(self).layouts.current_idx,
                ev,
            ).2,
    {
        match ev {
            Event::KeyboardLayoutsChanged { keyboard_layouts } => self.changed(keyboard_layouts),
            Event::KeyboardLayoutSwitched { idx } => self.switched(idx),
            Event::Other => None,
        }
    }
}

/// A raw name of the shape `FULL (ALIAS)` — full name, whitespace,
/// parenthesized alias hint — parses into exactly those two parts.
pub proof fn lemma_parse_full_ws_alias(full: Seq<char>, ws: Seq<char>, alias: Seq<char>)
    requires
        seq_no_ws(full),
        full.len() > 0,
        seq_all_ws(ws),
        ws.len() > 0,
        seq_no_ws(alias),
        alias.len() > 0,
    ensures
        parse_spec(full + ws + "("@ + alias + ")"@) == Some((full, Some(alias))),
{
    reveal_strlit("(");
    reveal_strlit(")");
    let raw = full + ws + "("@ + alias + ")"@;
    let m = full.len() as int;
    assert forall|k: int| 0 <= k < m implies !ws_char(raw[k]) by {
        assert(raw[k] == full[k]);
    }
    assert(raw[m] == ws[0]);
    lemma_nonws_prefix_is(raw, m);
    let rest = raw.subrange(m, raw.len() as int);
    assert(rest =~= ws + "("@ + alias + ")"@);
    assert forall|k: int| 0 <= k < ws.len() implies ws_char(rest[k]) by {
        assert(rest[k] == ws[k]);
    }
    assert(rest[ws.len() as int] == '(');
    assert(!ws_char('('));
    lemma_ws_prefix_is(rest, ws.len() as int);
    let t = rest.subrange(ws.len() as int, rest.len() as int);
    assert(t =~= "("@ + alias + ")"@);
    assert(t[0] == '(');
    assert(t[t.len() - 1] == ')');
    let inner = t.subrange(1, t.len() - 1);
    assert(inner =~= alias);
    assert(raw.subrange(0, m) =~= full);
}

/// A raw name of the shape `FULL (ALIAS)` whose alias hint has a table entry
/// resolves to that entry's value, whatever the table holds for the full
/// name.
pub proof fn lemma_resolve_alias_entry(
    full: Seq<char>,
    ws: Seq<char>,
    alias: Seq<char>,
    table: Seq<(Seq<char>, Seq<char>)>,
)
    requires
        seq_no_ws(full),
        full.len() > 0,
        seq_all_ws(ws),
        ws.len() > 0,
        seq_no_ws(alias),
        alias.len() > 0,
        table_lookup(table, alias) is Some,
    ensures
        resolve_spec(full + ws + "("@ + alias + ")"@, table) == table_lookup(table, alias)->0,
{
    lemma_parse_full_ws_alias(full, ws, alias);
}

/// A raw name of the shape `FULL (ALIAS)` where neither the alias hint nor
/// the full name has a table entry resolves to the alias hint verbatim.
pub proof fn lemma_resolve_alias_fallback(
    full: Seq<char>,
    ws: Seq<char>,
    alias: Seq<char>,
    table: Seq<(Seq<char>, Seq<char>)>,
)
    requires
        seq_no_ws(full),
        full.len() > 0,
        seq_all_ws(ws),
        ws.len() > 0,
        seq_no_ws(alias),
        alias.len() > 0,
        table_lookup(table, alias) is None,
        table_lookup(table, full) is None,
    ensures
        resolve_spec(full + ws + "("@ + alias + ")"@, table) == alias,
{
    lemma_parse_full_ws_alias(full, ws, alias);
}

/// A raw name of the shape `FULL (ALIAS)` whose alias hint has no table entry
/// while the full name has one resolves to the full name's entry.
pub proof fn lemma_resolve_full_entry_with_hint(
    full: Seq<char>,
    ws: Seq<char>,
    alias: Seq<char>,
    table: Seq<(Seq<char>, Seq<char>)>,
)
    requires
        seq_no_ws(full),
        full.len() > 0,
        seq_all_ws(ws),
        ws.len() > 0,
        seq_no_ws(alias),
        alias.len() > 0,
        table_lookup(table, alias) is None,
        table_lookup(table, full) is Some,
    ensures
        resolve_spec(full + ws + "("@ + alias + ")"@, table) == table_lookup(table, full)->0,
{
    lemma_parse_full_ws_alias(full, ws, alias);
}

/// A raw name of the shape `FULL ()` parses into the full name with no alias
/// hint: an empty parenthesis counts as no hint.
pub proof fn lemma_parse_empty_hint(full: Seq<char>, ws: Seq<char>)
    requires
        seq_no_ws(full),
        full.len() > 0,
        seq_all_ws(ws),
        ws.len() > 0,
    ensures
        parse_spec(full + ws + "()"@) == Some((full, None::<Seq<char>>)),
{
    reveal_strlit("()");
    let raw = full + ws + "()"@;
    let m = full.len() as int;
    assert forall|k: int| 0 <= k < m implies !ws_char(raw[k]) by {
        assert(raw[k] == full[k]);
    }
    assert(raw[m] == ws[0]);
    lemma_nonws_prefix_is(raw, m);
    let rest = raw.subrange(m, raw.len() as int);
    assert(rest =~= ws + "()"@);
    assert forall|k: int| 0 <= k < ws.len() implies ws_char(rest[k]) by {
        assert(rest[k] == ws[k]);
    }
    assert(rest[ws.len() as int] == '(');
    assert(!ws_char('('));
    lemma_ws_prefix_is(rest, ws.len() as int);
    let t = rest.subrange(ws.len() as int, rest.len() as int);
    assert(t =~= "()"@);
    assert(t[0] == '(');
    assert(t[t.len() - 1] == ')');
    assert(seq_no_ws(t.subrange(1, t.len() - 1)));
    assert(raw.subrange(0, m) =~= full);
}

/// An empty parenthesis is treated as absent: `FULL ()` resolves exactly as
/// the bare `FULL` does.
pub proof fn lemma_resolve_empty_hint(
    full: Seq<char>,
    ws: Seq<char>,
    table: Seq<(Seq<char>, Seq<char>)>,
)
    requires
        seq_no_ws(full),
        full.len() > 0,
        seq_all_ws(ws),
        ws.len() > 0,
    ensures
        resolve_spec(full + ws + "()"@, table) == resolve_spec(full, table),
{
    lemma_parse_empty_hint(full, ws);
    lemma_parse_plain(full);
}

/// A raw name with no parenthetical part — a plain non-empty run of
/// non-whitespace characters — parses into itself with no alias hint.
pub proof fn lemma_parse_plain(raw: Seq<char>)
    requires
        seq_no_ws(raw),
        raw.len() > 0,
    ensures
        parse_spec(raw) == Some((raw, None::<Seq<char>>)),
{
    lemma_nonws_prefix_is(raw, raw.len() as int);
    let rest = raw.subrange(raw.len() as int, raw.len() as int);
    lemma_ws_prefix_is(rest, 0);
    assert(rest.subrange(0, rest.len() as int).len() == 0);
    assert(raw.subrange(0, raw.len() as int) =~= raw);
}

/// A raw name with no parenthetical part and no table entry resolves to the
/// input unchanged.
pub proof fn lemma_resolve_plain_unchanged(raw: Seq<char>, table: Seq<(Seq<char>, Seq<char>)>)
    requires
        seq_no_ws(raw),
        raw.len() > 0,
        table_lookup(table, raw) is None,
    ensures
        resolve_spec(raw, table) == raw,
{
    lemma_parse_plain(raw);
}

/// A raw name with no parenthetical part and a table entry for the full name
/// resolves to the entry's value.
pub proof fn lemma_resolve_plain_entry(raw: Seq<char>, table: Seq<(Seq<char>, Seq<char>)>)
    requires
        seq_no_ws(raw),
        raw.len() > 0,
        table_lookup(table, raw) is Some,
    ensures
        resolve_spec(raw, table) == table_lookup(table, raw)->0,
{
    lemma_parse_plain(raw);
}

/// Alias lookup is case-insensitive: two keys with the same lower-cased form
/// look up the same table value.
pub proof fn lemma_lookup_case_insensitive(
    table: Seq<(Seq<char>, Seq<char>)>,
    key_a: Seq<char>,
    key_b: Seq<char>,
)
    requires
        lower_of(key_a) == lower_of(key_b),
    ensures
        table_lookup(table, key_a) == table_lookup(table, key_b),
{
}

} // verus!
