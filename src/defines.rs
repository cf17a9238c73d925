//! The definition registry: macro names and optional bodies given as
//! `NAME` or `NAME=VALUE`, with backslash escapes in the value decoded.
use vstd::prelude::*;
use crate::text::lines_view;

verus! {

/// What `enquote::unescape` makes of a text: the decoded text, or `None`
/// where it refuses an escape sequence.
pub uninterp spec fn unescape_of(s: Seq<char>) -> Option<Seq<char>>;

#[verifier::external_type_specification]
#[verifier::external_body]
pub struct ExUnescapeError(enquote::Error);

/// Relies on `enquote::unescape` with no illegal character: it decodes the
/// backslash escapes of `s`, and hands back text without a backslash as it is.
#[verifier::external_body]
fn unescape(s: &str) -> (r: Result<String, enquote::Error>)
    ensures
        match r {
            Ok(u) => unescape_of(s@) == Some(u@),
            Err(_) => unescape_of(s@) is None,
        },
        (forall|i: int| 0 <= i < s@.len() ==> s@[i] != '\\') ==> (r is Ok && r->Ok_0@ == s@),
{
    enquote::unescape(s, None)
}

/// A macro definition: its name and its body, if it has one.
pub struct Definition {
    pub name: String,
    pub body: Option<String>,
}

/// The value of a definition could not be unescaped.
#[derive(Debug, PartialEq, Eq, Structural)]
pub enum DefineError {
    MalformedValue,
}

/// The characters of an optional text.
pub open spec fn opt_view(o: Option<String>) -> Option<Seq<char>> {
    match o {
        Some(s) => Some(s@),
        None => None,
    }
}

/// Index of the first `=` in `s`, or its length where there is none.
pub open spec fn first_eq(s: Seq<char>) -> nat
    decreases s.len(),
{
    if s.len() == 0 || s[0] == '=' {
        0
    } else {
        1 + first_eq(s.drop_first())
    }
}

/// The name part of a definition string: everything before the first `=`.
pub open spec fn define_name(s: Seq<char>) -> Seq<char> {
    s.subrange(0, first_eq(s) as int)
}

/// The raw value part of a definition string: everything after the first `=`.
pub open spec fn define_value(s: Seq<char>) -> Option<Seq<char>> {
    if first_eq(s) < s.len() {
        Some(s.subrange(first_eq(s) as int + 1, s.len() as int))
    } else {
        None
    }
}

/// The name and body that a definition string stands for, or `None` where
/// its value cannot be unescaped.
pub open spec fn define_parse(s: Seq<char>) -> Option<(Seq<char>, Option<Seq<char>>)> {
    match define_value(s) {
        None => Some((define_name(s), None)),
        Some(v) => match unescape_of(v) {
            Some(u) => Some((define_name(s), Some(u))),
            None => None,
        },
    }
}

/// `v` holds no backslash.
pub open spec fn no_backslash(v: Seq<char>) -> bool {
    forall|i: int| 0 <= i < v.len() ==> v[i] != '\\'
}

/// A definition string whose value, if it has one, holds no escape.
pub open spec fn plain_define(s: Seq<char>) -> bool {
    match define_value(s) {
        None => true,
        Some(v) => no_backslash(v),
    }
}

proof fn lemma_first_eq(s: Seq<char>, i: int)
    requires
        0 <= i <= s.len(),
        forall|j: int| 0 <= j < i ==> s[j] != '=',
        i == s.len() || s[i] == '=',
    ensures
        first_eq(s) == i,
    decreases i,
{
    if i > 0 {
        let t = s.drop_first();
        assert forall|j: int| 0 <= j < i - 1 implies t[j] != '=' by {
            assert(t[j] == s[j + 1]);
        }
        lemma_first_eq(t, i - 1);
    }
}

/// Splits `s` on its first `=` into a name and a value, and unescapes the value.
pub fn parse_define(s: &str) -> (r: Result<Definition, DefineError>)
    ensures
        match r {
            Ok(d) => define_parse(s@) == Some((d.name@, opt_view(d.body))),
            Err(_) => define_parse(s@) is None,
        },
        plain_define(s@) ==> r is Ok && opt_view(r->Ok_0.body) == define_value(s@),
{
    let n = s.unicode_len();
    let mut k: usize = 0;
    while k < n && s.get_char(k) != '='
        invariant
            n == s@.len(),
            k <= n,
            forall|j: int| 0 <= j < k ==> s@[j] != '=',
        decreases n - k,
    {
        k = k + 1;
    }
    proof {
        lemma_first_eq(s@, k as int);
    }
    let name = String::from_str(s.substring_char(0, k));
    if k == n {
        Ok(Definition { name, body: None })
    } else {
        match unescape(s.substring_char(k + 1, n)) {
            Ok(u) => Ok(Definition { name, body: Some(u) }),
            Err(_) => Err(DefineError::MalformedValue),
        }
    }
}

/// The map that a sequence of definitions gives, later ones overriding
/// earlier ones with the same name.
pub open spec fn entries_map(es: Seq<Definition>) -> Map<Seq<char>, Option<Seq<char>>>
    decreases es.len(),
{
    if es.len() == 0 {
        Map::empty()
    } else {
        entries_map(es.drop_last()).insert(es.last().name@, opt_view(es.last().body))
    }
}

/// No two definitions in `es` share a name.
pub open spec fn names_unique(es: Seq<Definition>) -> bool {
    forall|i: int, j: int| 0 <= i < j < es.len() ==> es[i].name@ != es[j].name@
}

proof fn lemma_entries_update(es: Seq<Definition>, j: int, d: Definition)
    requires
        names_unique(es),
        0 <= j < es.len(),
        es[j].name@ == d.name@,
    ensures
        entries_map(es.update(j, d)) == entries_map(es).insert(d.name@, opt_view(d.body)),
    decreases es.len(),
{
    let u = es.update(j, d);
    let pre = es.drop_last();
    if j == es.len() - 1 {
        assert(u.drop_last() =~= pre);
        assert(entries_map(u) =~= entries_map(es).insert(d.name@, opt_view(d.body)));
    } else {
        assert(u.drop_last() =~= pre.update(j, d));
        assert(names_unique(pre));
        lemma_entries_update(pre, j, d);
        assert(es[j].name@ != es[es.len() - 1].name@);
        assert(entries_map(u) =~= entries_map(es).insert(d.name@, opt_view(d.body)));
    }
}

/// The definitions registered, each name once.
pub struct Registry {
    defines: Vec<Definition>,
}

impl View for Registry {
    type V = Map<Seq<char>, Option<Seq<char>>>;

    closed spec fn view(&self) -> Map<Seq<char>, Option<Seq<char>>> {
        entries_map(self.defines@)
    }
}

impl Registry {
    /// Each name is registered once.
    pub closed spec fn wf(&self) -> bool {
        names_unique(self.defines@)
    }

    /// A registry with no definition.
    pub fn new() -> (r: Registry)
        ensures
            r.wf(),
            r@ == Map::<Seq<char>, Option<Seq<char>>>::empty(),
    {
        Registry { defines: Vec::new() }
    }

    /// The definitions, each name once.
    pub fn entries(&self) -> (r: &Vec<Definition>)
        requires
            self.wf(),
        ensures
            names_unique(r@),
            entries_map(r@) == self@,
    {
        &self.defines
    }

    /// Registers `d`, replacing any definition of the same name.
    pub fn insert(&mut self, d: Definition)
        requires
            old(self).wf(),
        ensures
            final(self).wf(),
            final(self)@ == old(self)@.insert(d.name@, opt_view(d.body)),
    {
        let n = self.defines.len();
        let mut i: usize = 0;
        while i < n
            invariant
                n == self.defines@.len(),
                self.defines@ == old(self).defines@,
                names_unique(old(self).defines@),
                i <= n,
                forall|k: int| 0 <= k < i ==> self.defines@[k].name@ != d.name@,
            decreases n - i,
        {
            if self.defines[i].name == d.name {
                proof {
                    lemma_entries_update(self.defines@, i as int, d);
                }
                self.defines.set(i, d);
                assert forall|a: int, b: int| 0 <= a < b < self.defines@.len() implies self.defines@[a].name@
                    != self.defines@[b].name@ by {
                    assert(old(self).defines@[a].name@ != old(self).defines@[b].name@);
                }
                return;
            }
            i = i + 1;
        }
        self.defines.push(d);
        assert(self.defines@.drop_last() =~= old(self).defines@);
    }

    /// The body registered under `name`: `None` where the name is not
    /// defined, `Some(None)` where it is defined without a body.
    pub fn get(&self, name: &str) -> (r: Option<Option<String>>)
        ensures
            r is Some <==> self@.contains_key(name@),
            r is Some ==> opt_view(r->0) == self@[name@],
    {
        let es = &self.defines;
        let mut i: usize = es.len();
        assert(es@.subrange(0, i as int) =~= es@);
        while i > 0
            invariant
                i <= es@.len(),
                self@.contains_key(name@) == entries_map(es@.subrange(0, i as int)).contains_key(
                    name@,
                ),
                self@.contains_key(name@) ==> self@[name@] == entries_map(
                    es@.subrange(0, i as int),
                )[name@],
            decreases i,
        {
            let ghost pre = es@.subrange(0, i - 1);
            assert(es@.subrange(0, i as int).drop_last() =~= pre);
            if es[i - 1].name == String::from_str(name) {
                let b = match &es[i - 1].body {
                    Some(t) => Some(t.clone()),
                    None => None,
                };
                return Some(b);
            }
            i = i - 1;
        }
        assert(es@.subrange(0, 0) =~= Seq::<Definition>::empty());
        None
    }
}

/// The registry that a sequence of definition strings builds, or `None`
/// where one of the values cannot be unescaped.
pub open spec fn registry_of(ds: Seq<Seq<char>>) -> Option<Map<Seq<char>, Option<Seq<char>>>>
    decreases ds.len(),
{
    if ds.len() == 0 {
        Some(Map::empty())
    } else {
        match (registry_of(ds.drop_last()), define_parse(ds.last())) {
            (Some(m), Some((n, b))) => Some(m.insert(n, b)),
            _ => None,
        }
    }
}

/// Builds the registry from definition strings given in order; fails on the
/// first value that cannot be unescaped.
pub fn build_registry(defines: &Vec<String>) -> (r: Result<Registry, DefineError>)
    ensures
        match r {
            Ok(reg) => reg.wf() && registry_of(lines_view(defines@)) == Some(reg@),
            Err(_) => registry_of(lines_view(defines@)) is None,
        },
        (forall|i: int| 0 <= i < defines@.len() ==> plain_define(#[trigger] defines@[i]@)) ==> r is Ok,
{
    let mut reg = Registry::new();
    let mut k: usize = 0;
    while k < defines.len()
        invariant
            k <= defines@.len(),
            reg.wf(),
            registry_of(lines_view(defines@.subrange(0, k as int))) == Some(reg@),
        decreases defines@.len() - k,
    {
        let ghost pre = defines@.subrange(0, k as int);
        assert(lines_view(defines@.subrange(0, k + 1)).drop_last() =~= lines_view(pre));
        match parse_define(defines[k].as_str()) {
            Ok(d) => {
                reg.insert(d);
            },
            Err(e) => {
                proof {
                    lemma_registry_fails_on(lines_view(defines@), k as int);
                    assert(!plain_define(defines@[k as int]@));
                }
                return Err(e);
            },
        }
        k = k + 1;
    }
    assert(defines@.subrange(0, defines@.len() as int) =~= defines@);
    Ok(reg)
}

proof fn lemma_registry_fails_on(ds: Seq<Seq<char>>, k: int)
    requires
        0 <= k < ds.len(),
        define_parse(ds[k]) is None,
    ensures
        registry_of(ds) is None,
    decreases ds.len(),
{
    if k < ds.len() - 1 {
        lemma_registry_fails_on(ds.drop_last(), k);
    }
}

/// Where the last registration of a name is `NAME=VALUE`, the registry maps
/// `NAME` to the unescaped `VALUE`; where it is `NAME` alone, to no body.
pub proof fn lemma_registry_last_define(ds: Seq<Seq<char>>, s: Seq<char>)
    requires
        registry_of(ds.push(s)) is Some,
    ensures
        registry_of(ds.push(s))->0.contains_key(define_name(s)),
        define_value(s) is None ==> registry_of(ds.push(s))->0[define_name(s)] is None,
        define_value(s) is Some ==> registry_of(ds.push(s))->0[define_name(s)] == unescape_of(
            define_value(s)->0,
        ),
{
    assert(ds.push(s).drop_last() =~= ds);
    assert(ds.push(s).last() == s);
}

} // verus!
