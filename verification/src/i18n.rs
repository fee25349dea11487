//! User-facing strings: the built-in locales, the registry that resolves a
//! group's locale, and `{placeholder}` substitution.
use vstd::prelude::*;

use crate::error::Error;
use crate::locales::{english, english_view, simplified_chinese, simplified_chinese_view, Locale};
use crate::text::{chars_of, chars_eq, push_char, push_str, str_eq, string_of_range};

verus! {

broadcast use vstd::string::group_string_axioms;

/// The index of the first `c` in `s`.
pub open spec fn first_index(s: Seq<char>, c: char) -> Option<int>
    decreases s.len(),
{
    if s.len() == 0 {
        None
    } else if s[0] == c {
        Some(0)
    } else {
        match first_index(s.drop_first(), c) {
            Some(i) => Some(i + 1),
            None => None,
        }
    }
}

pub proof fn lemma_first_index_bound(s: Seq<char>, c: char)
    ensures
        first_index(s, c) matches Some(i) ==> 0 <= i < s.len() && s[i] == c,
        first_index(s, c) is None ==> forall|j: int| 0 <= j < s.len() ==> s[j] != c,
    decreases s.len(),
{
    if s.len() > 0 && s[0] != c {
        lemma_first_index_bound(s.drop_first(), c);
        if first_index(s, c) is None {
            assert forall|j: int| 0 <= j < s.len() implies s[j] != c by {
                if j > 0 {
                    assert(s[j] == s.drop_first()[j - 1]);
                }
            }
        }
    }
}

pub proof fn lemma_first_index_at(s: Seq<char>, c: char, k: int)
    requires
        0 <= k <= s.len(),
        forall|j: int| 0 <= j < k ==> s[j] != c,
        k < s.len() ==> s[k] == c,
    ensures
        first_index(s, c) == (if k < s.len() { Some(k) } else { None::<int> }),
    decreases k,
{
    if k > 0 {
        let t = s.drop_first();
        assert forall|j: int| 0 <= j < k - 1 implies t[j] != c by {
            assert(t[j] == s[j + 1]);
        }
        if k < s.len() {
            assert(t[k - 1] == s[k]);
        }
        lemma_first_index_at(t, c, k - 1);
    }
}

/// The `(name, value)` arguments of a rendering, as character sequences.
pub open spec fn arg_views(args: Seq<(&str, &str)>) -> Seq<(Seq<char>, Seq<char>)> {
    args.map_values(|p: (&str, &str)| (p.0@, p.1@))
}

/// The value given for placeholder `key`: that of the first argument whose
/// name is `key`.
pub open spec fn lookup(args: Seq<(Seq<char>, Seq<char>)>, key: Seq<char>) -> Option<Seq<char>>
    decreases args.len(),
{
    if args.len() == 0 {
        None
    } else if args[0].0 == key {
        Some(args[0].1)
    } else {
        lookup(args.drop_first(), key)
    }
}

/// What a placeholder `{key}` becomes: its value, or the placeholder itself
/// when no argument names it.
pub open spec fn substitution(args: Seq<(Seq<char>, Seq<char>)>, key: Seq<char>) -> Seq<char> {
    match lookup(args, key) {
        Some(v) => v,
        None => seq!['{'] + key + seq!['}'],
    }
}

/// `template` with each `{key}` replaced, left to right. A `{` opens a
/// placeholder that runs to the next `}`; a `{` with no `}` after it, and
/// everything after it, stays as it is.
pub open spec fn rendered(t: Seq<char>, args: Seq<(Seq<char>, Seq<char>)>) -> Seq<char>
    decreases t.len(),
{
    match first_index(t, '{') {
        None => t,
        Some(o) => {
            let after = t.skip(o + 1);
            match first_index(after, '}') {
                None => t,
                Some(c) => {
                    proof {
                        lemma_first_index_bound(t, '{');
                        lemma_first_index_bound(after, '}');
                    }
                    t.take(o) + substitution(args, after.take(c)) + rendered(after.skip(c + 1), args)
                }
            }
        }
    }
}

/// With nothing to substitute, rendering leaves the template as it is.
pub proof fn lemma_render_no_args(t: Seq<char>, args: Seq<(Seq<char>, Seq<char>)>)
    requires
        args.len() == 0,
    ensures
        rendered(t, args) == t,
    decreases t.len(),
{
    match first_index(t, '{') {
        None => {},
        Some(o) => {
            let after = t.skip(o + 1);
            lemma_first_index_bound(t, '{');
            match first_index(after, '}') {
                None => {},
                Some(c) => {
                    lemma_first_index_bound(after, '}');
                    let rest = after.skip(c + 1);
                    lemma_render_no_args(rest, args);
                    assert(t =~= t.take(o) + (seq!['{'] + after.take(c) + seq!['}']) + rest) by {
                        assert(t[o] == '{');
                        assert(after[c] == '}');
                    }
                }
            }
        }
    }
}

/// A template without `{` renders to itself.
pub proof fn lemma_render_no_braces(t: Seq<char>, args: Seq<(Seq<char>, Seq<char>)>)
    requires
        forall|i: int| 0 <= i < t.len() ==> t[i] != '{',
    ensures
        rendered(t, args) == t,
{
    lemma_first_index_at(t, '{', t.len() as int);
}

/// A lone placeholder `{key}` (a key without braces) becomes the value of
/// the first argument named `key`, or stays `{key}` when none is.
pub proof fn lemma_render_placeholder(key: Seq<char>, args: Seq<(Seq<char>, Seq<char>)>)
    requires
        forall|i: int| 0 <= i < key.len() ==> key[i] != '{' && key[i] != '}',
    ensures
        rendered(seq!['{'] + key + seq!['}'], args) == substitution(args, key),
{
    let t = seq!['{'] + key + seq!['}'];
    lemma_first_index_at(t, '{', 0);
    let after = t.skip(1);
    assert(after =~= key + seq!['}']);
    assert forall|j: int| 0 <= j < key.len() implies after[j] != '}' by {
        assert(after[j] == key[j]);
    }
    lemma_first_index_at(after, '}', key.len() as int);
    assert(after.take(key.len() as int) =~= key);
    let rest = after.skip(key.len() as int + 1);
    assert(rest.len() == 0);
    lemma_first_index_at(rest, '{', 0);
    assert(t.take(0) =~= Seq::<char>::empty());
    assert(rendered(rest, args) == rest);
    assert(rendered(t, args) =~= substitution(args, key));
}

/// A placeholder takes the value of the first argument with its name; with
/// no such argument it has none.
pub proof fn lemma_lookup_first(args: Seq<(Seq<char>, Seq<char>)>, key: Seq<char>, i: int)
    ensures
        (forall|j: int| 0 <= j < args.len() ==> args[j].0 != key) ==> lookup(args, key) is None,
        0 <= i < args.len() && args[i].0 == key && (forall|j: int| 0 <= j < i ==> args[j].0 != key)
            ==> lookup(args, key) == Some(args[i].1),
    decreases args.len(),
{
    if args.len() > 0 {
        let rest = args.drop_first();
        lemma_lookup_first(rest, key, i - 1);
        if forall|j: int| 0 <= j < args.len() ==> args[j].0 != key {
            assert(args[0].0 != key);
            assert forall|j: int| 0 <= j < rest.len() implies rest[j].0 != key by {
                assert(rest[j] == args[j + 1]);
            }
        }
        if 0 < i < args.len() && args[i].0 == key && (forall|j: int| 0 <= j < i ==> args[j].0 != key) {
            assert(args[0].0 != key);
            assert(rest[i - 1] == args[i]);
            assert forall|j: int| 0 <= j < i - 1 implies rest[j].0 != key by {
                assert(rest[j] == args[j + 1]);
            }
        }
    }
}

proof fn lemma_first_index_first(s: Seq<char>, c: char)
    ensures
        first_index(s, c) matches Some(i) ==> forall|j: int| 0 <= j < i ==> s[j] != c,
    decreases s.len(),
{
    lemma_first_index_bound(s, c);
    if s.len() > 0 && s[0] != c {
        lemma_first_index_first(s.drop_first(), c);
        if let Some(i) = first_index(s, c) {
            assert forall|j: int| 0 <= j < i implies s[j] != c by {
                if j > 0 {
                    assert(s[j] == s.drop_first()[j - 1]);
                }
            }
        }
    }
}

/// Text without `{` in front of a template is kept as it is.
pub proof fn lemma_render_literal_prefix(a: Seq<char>, t: Seq<char>, args: Seq<(Seq<char>, Seq<char>)>)
    requires
        forall|i: int| 0 <= i < a.len() ==> a[i] != '{',
    ensures
        rendered(a + t, args) == a + rendered(t, args),
{
    let at = a + t;
    lemma_first_index_bound(t, '{');
    lemma_first_index_first(t, '{');
    match first_index(t, '{') {
        None => {
            assert forall|j: int| 0 <= j < at.len() implies at[j] != '{' by {
                if j >= a.len() {
                    assert(at[j] == t[j - a.len()]);
                } else {
                    assert(at[j] == a[j]);
                }
            }
            lemma_first_index_at(at, '{', at.len() as int);
        },
        Some(o) => {
            assert forall|j: int| 0 <= j < a.len() + o implies at[j] != '{' by {
                if j >= a.len() {
                    assert(at[j] == t[j - a.len()]);
                } else {
                    assert(at[j] == a[j]);
                }
            }
            lemma_first_index_at(at, '{', a.len() + o);
            let after = t.skip(o + 1);
            assert(at.skip(a.len() + o + 1) =~= after);
            assert(at.take(a.len() + o) =~= a + t.take(o));
            match first_index(after, '}') {
                None => {},
                Some(c) => {
                    lemma_first_index_bound(after, '}');
                    let tail = substitution(args, after.take(c)) + rendered(after.skip(c + 1), args);
                    assert(a + t.take(o) + tail =~= a + (t.take(o) + tail));
                },
            }
        },
    }
}

/// A placeholder `{key}` (a key without braces) at the head of a template
/// becomes its substitution, followed by the rest of the template rendered.
pub proof fn lemma_render_placeholder_then(key: Seq<char>, t: Seq<char>, args: Seq<(Seq<char>, Seq<char>)>)
    requires
        forall|i: int| 0 <= i < key.len() ==> key[i] != '{' && key[i] != '}',
    ensures
        rendered(seq!['{'] + key + seq!['}'] + t, args) == substitution(args, key) + rendered(t, args),
{
    let whole = seq!['{'] + key + seq!['}'] + t;
    lemma_first_index_at(whole, '{', 0);
    let after = whole.skip(1);
    assert(after =~= key + seq!['}'] + t);
    assert forall|j: int| 0 <= j < key.len() implies after[j] != '}' by {
        assert(after[j] == key[j]);
    }
    lemma_first_index_at(after, '}', key.len() as int);
    assert(after.take(key.len() as int) =~= key);
    assert(after.skip(key.len() as int + 1) =~= t);
    assert(whole.take(0) + substitution(args, key) + rendered(t, args) =~= substitution(args, key) + rendered(t, args));
}

fn find_char_from(v: &Vec<char>, from: usize, c: char) -> (r: Option<usize>)
    requires
        from <= v.len(),
    ensures
        match first_index(v@.skip(from as int), c) {
            Some(i) => r == Some((from + i) as usize),
            None => r is None,
        },
{
    let mut i = from;
    while i < v.len()
        invariant
            from <= i <= v.len(),
            forall|j: int| from <= j < i ==> v@[j] != c,
        decreases v.len() - i,
    {
        if v[i] == c {
            proof {
                let s = v@.skip(from as int);
                assert forall|j: int| 0 <= j < i - from implies s[j] != c by {
                    assert(s[j] == v@[j + from]);
                }
                lemma_first_index_at(s, c, i - from);
            }
            return Some(i);
        }
        i += 1;
    }
    proof {
        let s = v@.skip(from as int);
        assert forall|j: int| 0 <= j < s.len() implies s[j] != c by {
            assert(s[j] == v@[j + from]);
        }
        lemma_first_index_at(s, c, s.len() as int);
    }
    None
}

fn find_arg(args: &[(&str, &str)], key: &Vec<char>) -> (r: Option<usize>)
    ensures
        match lookup(arg_views(args@), key@) {
            Some(v) => r matches Some(j) && j < args@.len() && args@[j as int].1@ == v,
            None => r is None,
        },
{
    let mut j: usize = 0;
    let ghost all = arg_views(args@);
    assert(all.skip(0) =~= all);
    while j < args.len()
        invariant
            j <= args@.len(),
            all == arg_views(args@),
            lookup(all, key@) == lookup(all.skip(j as int), key@),
        decreases args@.len() - j,
    {
        let name = chars_of(args[j].0);
        let ghost s = all.skip(j as int);
        assert(s[0] == all[j as int]);
        assert(all[j as int] == (args@[j as int].0@, args@[j as int].1@));
        if chars_eq(&name, key) {
            return Some(j);
        }
        assert(s.drop_first() =~= all.skip(j + 1));
        j += 1;
    }
    None
}

fn contains_char(v: &Vec<char>, c: char) -> (r: bool)
    ensures
        r == exists|i: int| 0 <= i < v@.len() && v@[i] == c,
{
    let mut i: usize = 0;
    while i < v.len()
        invariant
            i <= v.len(),
            forall|j: int| 0 <= j < i ==> v@[j] != c,
        decreases v.len() - i,
    {
        if v[i] == c {
            return true;
        }
        i += 1;
    }
    false
}

/// Substitutes `{placeholder}` occurrences in `template` with values from
/// `args`. Unknown placeholders are left in place so that the output shows
/// gaps in the configuration instead of swallowing them.
pub fn render(template: &str, args: &[(&str, &str)]) -> (r: String)
    ensures
        r@ == rendered(template@, arg_views(args@)),
{
    let t = chars_of(template);
    if args.len() == 0 || !contains_char(&t, '{') {
        proof {
            if args@.len() == 0 {
                lemma_render_no_args(template@, arg_views(args@));
            } else {
                lemma_render_no_braces(template@, arg_views(args@));
            }
        }
        return String::from_str(template);
    }
    let mut out = String::new();
    let mut pos: usize = 0;
    assert(t@.skip(0) =~= t@);
    loop
        invariant
            t@ == template@,
            pos <= t.len(),
            rendered(t@, arg_views(args@)) == out@ + rendered(t@.skip(pos as int), arg_views(args@)),
        decreases t.len() - pos,
    {
        let rest = Ghost(t@.skip(pos as int));
        match find_char_from(&t, pos, '{') {
            None => {
                let tail = string_of_range(&t, pos, t.len());
                push_str(&mut out, tail.as_str());
                assert(rest@ =~= t@.subrange(pos as int, t.len() as int));
                return out;
            },
            Some(o) => {
                proof {
                    lemma_first_index_bound(rest@, '{');
                }
                assert(t@.skip(o + 1) =~= rest@.skip(o - pos + 1));
                match find_char_from(&t, o + 1, '}') {
                    None => {
                        let tail = string_of_range(&t, pos, t.len());
                        push_str(&mut out, tail.as_str());
                        assert(rest@ =~= t@.subrange(pos as int, t.len() as int));
                        return out;
                    },
                    Some(c) => {
                        proof {
                            lemma_first_index_bound(rest@.skip(o - pos + 1), '}');
                        }
                        let prefix = string_of_range(&t, pos, o);
                        push_str(&mut out, prefix.as_str());
                        let key = string_of_range(&t, o + 1, c);
                        let key_chars = chars_of(key.as_str());
                        match find_arg(args, &key_chars) {
                            Some(j) => {
                                push_str(&mut out, args[j].1);
                            },
                            None => {
                                push_char(&mut out, '{');
                                push_str(&mut out, key.as_str());
                                push_char(&mut out, '}');
                            },
                        }
                        proof {
                            let after = rest@.skip(o - pos + 1);
                            assert(rest@.take(o - pos) =~= t@.subrange(pos as int, o as int));
                            assert(after.take(c - o - 1) =~= t@.subrange(o + 1, c as int));
                            assert(after.skip(c - o - 1 + 1) =~= t@.skip(c + 1));
                        }
                        pos = c + 1;
                    },
                }
            },
        }
    }
}

/// The locale registered under `key` in `entries`: the first entry with
/// that name.
pub open spec fn locale_lookup(entries: Seq<(String, Locale)>, key: Seq<char>) -> Option<Locale>
    decreases entries.len(),
{
    if entries.len() == 0 {
        None
    } else if entries[0].0@ == key {
        Some(entries[0].1)
    } else {
        locale_lookup(entries.drop_first(), key)
    }
}

/// The locales that the bot can speak, with the one used when a group asks
/// for none or for one that is not registered.
#[derive(Debug)]
pub struct LocaleRegistry {
    locales: Vec<(String, Locale)>,
    default: String,
}

impl LocaleRegistry {
    /// The default locale is always registered.
    #[verifier::type_invariant]
    spec fn wf(self) -> bool {
        locale_lookup(self.locales@, self.default@) is Some
    }

    /// The locale registered under `key`.
    pub closed spec fn get(self, key: Seq<char>) -> Option<Locale> {
        locale_lookup(self.locales@, key)
    }

    /// The name of the default locale.
    pub closed spec fn default_key(self) -> Seq<char> {
        self.default@
    }

    /// The locale that `resolve` gives for `preferred`.
    pub open spec fn resolved(self, preferred: Option<Seq<char>>) -> Locale {
        match preferred {
            Some(k) if self.get(k) is Some => self.get(k)->0,
            _ => self.get(self.default_key())->0,
        }
    }

    /// The built-in locales (`en` and `zh-CN`), with `default` as the
    /// default. Fails when `default` is not one of them.
    pub fn load(default: &str) -> (r: Result<LocaleRegistry, Error>)
        ensures
            match r {
                Ok(reg) => {
                    &&& (default@ == "en"@ || default@ == "zh-CN"@)
                    &&& reg.default_key() == default@
                    &&& forall|k: Seq<char>| #[trigger] reg.get(k) is Some <==> (k == "en"@ || k == "zh-CN"@)
                    &&& reg.get("en"@)->0@ == english_view()
                    &&& reg.get("zh-CN"@)->0@ == simplified_chinese_view()
                },
                Err(Error::UnknownLocale(name)) => name@ == default@ && default@ != "en"@ && default@ != "zh-CN"@,
                Err(_) => false,
            },
    {
        let mut locales: Vec<(String, Locale)> = Vec::new();
        locales.push((String::from_str("en"), english()));
        locales.push((String::from_str("zh-CN"), simplified_chinese()));
        proof {
            reveal_strlit("en");
            reveal_strlit("zh-CN");
            reveal_with_fuel(locale_lookup, 3);
            let l = locales@;
            assert(l.drop_first().drop_first().len() == 0);
            assert(l.drop_first()[0] == l[1]);
            assert("en"@ != "zh-CN"@) by {
                assert("en"@.len() != "zh-CN"@.len());
            }
            assert forall|k: Seq<char>| #[trigger] locale_lookup(l, k) is Some <==> (k == "en"@ || k == "zh-CN"@) by {
                assert(l.drop_first()[0] == l[1]);
            }
        }
        let known = str_eq(default, "en") || str_eq(default, "zh-CN");
        if !known {
            return Err(Error::UnknownLocale(String::from_str(default)));
        }
        Ok(LocaleRegistry { locales, default: String::from_str(default) })
    }

    fn find(&self, key: &str) -> (r: Option<usize>)
        ensures
            match locale_lookup(self.locales@, key@) {
                Some(l) => r matches Some(i) && i < self.locales@.len() && self.locales@[i as int].1 == l,
                None => r is None,
            },
    {
        let mut i: usize = 0;
        assert(self.locales@.skip(0) =~= self.locales@);
        while i < self.locales.len()
            invariant
                i <= self.locales@.len(),
                locale_lookup(self.locales@, key@) == locale_lookup(self.locales@.skip(i as int), key@),
            decreases self.locales@.len() - i,
        {
            let ghost s = self.locales@.skip(i as int);
            assert(s[0] == self.locales@[i as int]);
            if str_eq(self.locales[i].0.as_str(), key) {
                return Some(i);
            }
            assert(s.drop_first() =~= self.locales@.skip(i + 1));
            i += 1;
        }
        None
    }

    /// The locale for a group that asks for `preferred`; the default when
    /// it asks for none or for one that is not registered.
    pub fn resolve(&self, preferred: Option<&str>) -> (r: &Locale)
        ensures
            *r == self.resolved(match preferred { Some(k) => Some(k@), None => None }),
    {
        proof {
            use_type_invariant(self);
        }
        if let Some(key) = preferred {
            if let Some(i) = self.find(key) {
                return &self.locales[i].1;
            }
        }
        match self.find(self.default.as_str()) {
            Some(i) => &self.locales[i].1,
            None => {
                assert(false);
                &self.locales[0].1
            },
        }
    }

    /// Whether a locale is registered under `key`.
    pub fn is_known(&self, key: &str) -> (r: bool)
        ensures
            r == self.get(key@) is Some,
    {
        self.find(key).is_some()
    }
}

} // verus!
