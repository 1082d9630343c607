//! Accent tables: the per-locale map from base letter to accented
//! variants, and the keycode tables that decide which evdev keycodes
//! are accent-eligible and which select a popup entry. The keycodes
//! assume a US-QWERTY physical layout.

use crate::text::{str_eq, to_uppercase, upper_of};
use vstd::string::StringExecFns;
use vstd::prelude::*;

verus! {

/// The accent-eligible base letter for an evdev keycode, if any.
pub open spec fn spec_keycode_to_base(code: u16) -> Option<char> {
    if code == 30 {
        Some('a')
    } else if code == 46 {
        Some('c')
    } else if code == 18 {
        Some('e')
    } else if code == 23 {
        Some('i')
    } else if code == 49 {
        Some('n')
    } else if code == 24 {
        Some('o')
    } else if code == 31 {
        Some('s')
    } else if code == 22 {
        Some('u')
    } else if code == 21 {
        Some('y')
    } else {
        None
    }
}

/// Map an evdev keycode to the base letter it types, for the nine
/// accent-eligible letters; every other code maps to `None`.
pub fn keycode_to_base(code: u16) -> (r: Option<char>)
    ensures
        r == spec_keycode_to_base(code),
{
    match code {
        30 => Some('a'),
        46 => Some('c'),
        18 => Some('e'),
        23 => Some('i'),
        49 => Some('n'),
        24 => Some('o'),
        31 => Some('s'),
        22 => Some('u'),
        21 => Some('y'),
        _ => None,
    }
}

/// The 1-indexed digit on a number-row keycode, if any.
pub open spec fn spec_keycode_to_digit(code: u16) -> Option<u8> {
    if 2 <= code && code <= 10 {
        Some((code - 1) as u8)
    } else {
        None
    }
}

/// Map an evdev number-row keycode (2 through 10) to the digit 1
/// through 9 it types; every other code maps to `None`.
pub fn keycode_to_digit(code: u16) -> (r: Option<u8>)
    ensures
        r == spec_keycode_to_digit(code),
{
    if 2 <= code && code <= 10 {
        Some((code - 1) as u8)
    } else {
        None
    }
}

/// The nine letters a locale map may carry accents for.
pub open spec fn eligible_base(c: char) -> bool {
    c == 'a' || c == 'c' || c == 'e' || c == 'i' || c == 'n' || c == 'o' || c == 's' || c == 'u'
        || c == 'y'
}

/// The abstract content of a list of locale entries: a map from base
/// letter to the sequence of accent strings, later entries winning.
pub open spec fn entries_to_map(es: Seq<(char, Vec<String>)>) -> Map<char, Seq<Seq<char>>>
    decreases es.len(),
{
    if es.len() == 0 {
        Map::empty()
    } else {
        entries_to_map(es.drop_last()).insert(es.last().0, es.last().1.deep_view())
    }
}

/// A list of locale entries is valid when every base is one of the nine
/// eligible letters, every accent list is 1 to 9 long, and no base repeats.
pub open spec fn valid_entries(es: Seq<(char, Vec<String>)>) -> bool {
    &&& forall|i: int|
        0 <= i < es.len() ==> eligible_base(#[trigger] es[i].0) && 1 <= es[i].1@.len() <= 9
    &&& forall|i: int, j: int| 0 <= i < j < es.len() ==> es[i].0 != es[j].0
}

/// A locale's accent table: an ordered list of accent strings for each
/// eligible base letter. The order is user-visible (it fixes the digit
/// labels in the popup).
pub struct LocaleMap {
    entries: Vec<(char, Vec<String>)>,
}

impl View for LocaleMap {
    type V = Map<char, Seq<Seq<char>>>;

    closed spec fn view(&self) -> Map<char, Seq<Seq<char>>> {
        entries_to_map(self.entries@)
    }
}

proof fn lemma_entries_map_key(es: Seq<(char, Vec<String>)>, k: char)
    ensures
        entries_to_map(es).contains_key(k) <==> exists|i: int| 0 <= i < es.len() && es[i].0 == k,
    decreases es.len(),
{
    if es.len() > 0 {
        lemma_entries_map_key(es.drop_last(), k);
        if entries_to_map(es).contains_key(k) {
            if es.last().0 != k {
                let i = choose|i: int| 0 <= i < es.drop_last().len() && es.drop_last()[i].0 == k;
                assert(es[i].0 == k);
            }
        } else {
            assert(forall|i: int| 0 <= i < es.len() - 1 ==> es.drop_last()[i] == es[i]);
        }
    }
}

proof fn lemma_entries_map_at(es: Seq<(char, Vec<String>)>, i: int)
    requires
        0 <= i < es.len(),
        forall|p: int, q: int| 0 <= p < q < es.len() ==> es[p].0 != es[q].0,
    ensures
        entries_to_map(es).contains_key(es[i].0),
        entries_to_map(es)[es[i].0] == es[i].1.deep_view(),
    decreases es.len(),
{
    if i < es.len() - 1 {
        assert(forall|p: int| 0 <= p < es.len() - 1 ==> es.drop_last()[p] == es[p]);
        lemma_entries_map_at(es.drop_last(), i);
        assert(es[i].0 != es.last().0);
    }
}

impl LocaleMap {
    #[verifier::type_invariant]
    closed spec fn wf(&self) -> bool {
        valid_entries(self.entries@)
    }

    /// A locale map with no entries.
    pub fn empty() -> (r: LocaleMap)
        ensures
            r@ == Map::<char, Seq<Seq<char>>>::empty(),
    {
        LocaleMap { entries: Vec::new() }
    }

    /// Build a locale map from a list of entries, rejecting lists that
    /// break the locale-map invariant: a base outside the nine eligible
    /// letters, an accent list empty or longer than 9, or a repeated base.
    pub fn from_entries(entries: Vec<(char, Vec<String>)>) -> (r: Option<LocaleMap>)
        ensures
            match r {
                Some(m) => valid_entries(entries@) && m@ == entries_to_map(entries@),
                None => !valid_entries(entries@),
            },
    {
        let n = entries.len();
        let mut i: usize = 0;
        while i < n
            invariant
                n == entries@.len(),
                i <= n,
                forall|p: int|
                    0 <= p < i ==> eligible_base(#[trigger] entries@[p].0) && 1 <= entries@[p].1@.len()
                        <= 9,
                forall|p: int, q: int| 0 <= p < q < i ==> entries@[p].0 != entries@[q].0,
            decreases n - i,
        {
            let c = entries[i].0;
            let ok = match c {
                'a' | 'c' | 'e' | 'i' | 'n' | 'o' | 's' | 'u' | 'y' => true,
                _ => false,
            };
            if !ok || entries[i].1.len() == 0 || entries[i].1.len() > 9 {
                proof {
                    assert(!(eligible_base(entries@[i as int].0) && 1 <= entries@[i as int].1@.len()
                        <= 9));
                }
                return None;
            }
            let mut j: usize = 0;
            while j < i
                invariant
                    i < n == entries@.len(),
                    j <= i,
                    c == entries@[i as int].0,
                    forall|q: int| 0 <= q < j ==> entries@[q].0 != entries@[i as int].0,
                decreases i - j,
            {
                if entries[j].0 == c {
                    proof {
                        assert(entries@[j as int].0 == entries@[i as int].0);
                    }
                    return None;
                }
                j = j + 1;
            }
            i = i + 1;
        }
        Some(LocaleMap { entries })
    }

    /// Whether the map has no entries.
    pub fn is_empty(&self) -> (r: bool)
        ensures
            r == (self@.dom() == Set::<char>::empty()),
    {
        proof {
            if self.entries@.len() > 0 {
                lemma_entries_map_key(self.entries@, self.entries@.last().0);
                assert(self@.dom().contains(self.entries@.last().0));
            } else {
                assert(self@.dom() =~= Set::<char>::empty());
            }
        }
        self.entries.len() == 0
    }

    /// Whether the map has an entry for the given base letter.
    pub fn contains_key(&self, base: char) -> (r: bool)
        ensures
            r == self@.contains_key(base),
    {
        self.get(base).is_some()
    }

    /// The accent list for a base letter, if the map has one.
    pub fn get(&self, base: char) -> (r: Option<&Vec<String>>)
        ensures
            match r {
                Some(v) => self@.contains_key(base) && v.deep_view() == self@[base],
                None => !self@.contains_key(base),
            },
    {
        proof {
            use_type_invariant(&*self);
            lemma_entries_map_key(self.entries@, base);
        }
        let n = self.entries.len();
        let mut i: usize = 0;
        while i < n
            invariant
                n == self.entries@.len(),
                i <= n,
                forall|p: int| 0 <= p < i ==> self.entries@[p].0 != base,
            decreases n - i,
        {
            if self.entries[i].0 == base {
                proof {
                    use_type_invariant(&*self);
                    lemma_entries_map_at(self.entries@, i as int);
                }
                return Some(&self.entries[i].1);
            }
            i = i + 1;
        }
        None
    }

    /// Every entry of a well-formed locale map holds 1 to 9 accent
    /// strings.
    proof fn lemma_entry_lens(&self)
        requires
            self.wf(),
        ensures
            forall|k: char| #[trigger] self@.contains_key(k) ==> 1 <= self@[k].len() <= 9,
    {
        assert forall|k: char| self@.contains_key(k) implies 1 <= self@[k].len() <= 9 by {
            lemma_entries_map_key(self.entries@, k);
            let i = choose|i: int| 0 <= i < self.entries@.len() && self.entries@[i].0 == k;
            lemma_entries_map_at(self.entries@, i);
            assert(self.entries@[i].1.deep_view().len() == self.entries@[i].1@.len());
        }
    }

    /// A copy of the map with the same content.
    pub fn duplicate(&self) -> (r: LocaleMap)
        ensures
            r@ == self@,
    {
        proof {
            use_type_invariant(&*self);
        }
        let n = self.entries.len();
        let mut entries: Vec<(char, Vec<String>)> = Vec::new();
        let mut i: usize = 0;
        while i < n
            invariant
                n == self.entries@.len(),
                i <= n,
                entries@.len() == i,
                forall|p: int|
                    #![trigger entries@[p]]
                    #![trigger self.entries@[p]]
                    0 <= p < i ==> entries@[p].0 == self.entries@[p].0 && entries@[p].1@
                        == self.entries@[p].1@,
            decreases n - i,
        {
            let c = self.entries[i].0;
            entries.push((c, clone_strings(&self.entries[i].1)));
            i = i + 1;
        }
        proof {
            lemma_entries_map_congruence(entries@, self.entries@);
        }
        LocaleMap { entries }
    }
}

proof fn lemma_entries_map_congruence(a: Seq<(char, Vec<String>)>, b: Seq<(char, Vec<String>)>)
    requires
        a.len() == b.len(),
        forall|p: int|
            #![trigger a[p]]
            #![trigger b[p]]
            0 <= p < a.len() ==> a[p].0 == b[p].0 && a[p].1@ == b[p].1@,
    ensures
        entries_to_map(a) == entries_to_map(b),
        valid_entries(a) == valid_entries(b),
    decreases a.len(),
{
    if a.len() > 0 {
        assert(forall|p: int|
            0 <= p < a.len() - 1 ==> a.drop_last()[p] == a[p] && b.drop_last()[p] == b[p]);
        lemma_entries_map_congruence(a.drop_last(), b.drop_last());
        assert(a[a.len() - 1].0 == b[b.len() - 1].0);
        assert(a.last().1.deep_view() =~= b.last().1.deep_view());
        assert(entries_to_map(a) =~= entries_to_map(b));
    }
}

/// A copy of a vector of strings, element by element.
fn clone_strings(v: &Vec<String>) -> (r: Vec<String>)
    ensures
        r@ == v@,
{
    let n = v.len();
    let mut r: Vec<String> = Vec::new();
    let mut i: usize = 0;
    while i < n
        invariant
            n == v@.len(),
            i <= n,
            r@.len() == i,
            forall|p: int| 0 <= p < i ==> #[trigger] r@[p] == v@[p],
        decreases n - i,
    {
        r.push(v[i].clone());
        i = i + 1;
    }
    proof {
        assert(r@ =~= v@);
    }
    r
}

/// Lower an eligible uppercase letter to its lowercase form; every
/// other character is left alone. Locale maps only carry lowercase
/// eligible bases, so this folding agrees with full Unicode lowering
/// for every lookup.
pub open spec fn fold_base(c: char) -> char {
    if c == 'A' {
        'a'
    } else if c == 'C' {
        'c'
    } else if c == 'E' {
        'e'
    } else if c == 'I' {
        'i'
    } else if c == 'N' {
        'n'
    } else if c == 'O' {
        'o'
    } else if c == 'S' {
        's'
    } else if c == 'U' {
        'u'
    } else if c == 'Y' {
        'y'
    } else {
        c
    }
}

/// Look up the accent variants for a base letter. With `shift` the
/// variants are mapped through the Unicode uppercase mapping, so the
/// popup offers uppercase accents.
pub fn resolve_accents(map: &LocaleMap, base: char, shift: bool) -> (r: Option<Vec<String>>)
    ensures
        match r {
            Some(v) => has_base(map@, base) && 1 <= v@.len() <= 9 && (if shift {
                v.deep_view() == map@[fold_base(base)].map_values(|s: Seq<char>| upper_of(s))
            } else {
                v.deep_view() == map@[fold_base(base)]
            }),
            None => !has_base(map@, base),
        },
{
    proof {
        use_type_invariant(&*map);
        map.lemma_entry_lens();
    }
    let lower = match base {
        'A' => 'a',
        'C' => 'c',
        'E' => 'e',
        'I' => 'i',
        'N' => 'n',
        'O' => 'o',
        'S' => 's',
        'U' => 'u',
        'Y' => 'y',
        c => c,
    };
    match map.get(lower) {
        None => None,
        Some(accents) => {
            if shift {
                let n = accents.len();
                let mut out: Vec<String> = Vec::new();
                let mut i: usize = 0;
                while i < n
                    invariant
                        n == accents@.len(),
                        i <= n,
                        out@.len() == i,
                        forall|p: int| 0 <= p < i ==> #[trigger] out@[p]@ == upper_of(accents@[p]@),
                    decreases n - i,
                {
                    out.push(to_uppercase(accents[i].as_str()));
                    i = i + 1;
                }
                proof {
                    assert(accents.deep_view().len() == accents@.len());
                    assert(out.deep_view() =~= accents.deep_view().map_values(
                        |s: Seq<char>| upper_of(s),
                    ));
                    assert(out.deep_view().len() == out@.len());
                }
                Some(out)
            } else {
                let out = clone_strings(accents);
                proof {
                    assert(accents.deep_view().len() == accents@.len());
                    assert(out.deep_view() =~= accents.deep_view());
                }
                Some(out)
            }
        },
    }
}

/// Whether a lookup of `base` (folded to lowercase) succeeds in the map.
pub open spec fn has_base(m: Map<char, Seq<Seq<char>>>, base: char) -> bool {
    m.contains_key(fold_base(base))
}

/// The Italian table: grave first on e; five variants on a.
pub open spec fn locale_it_map() -> Map<char, Seq<Seq<char>>> {
    map![
        'a' => seq!["à"@, "á"@, "â"@, "ã"@, "ä"@],
        'e' => seq!["è"@, "é"@, "ê"@, "ë"@],
        'i' => seq!["ì"@, "í"@, "î"@, "ï"@],
        'o' => seq!["ò"@, "ó"@, "ô"@, "õ"@, "ö"@],
        'u' => seq!["ù"@, "ú"@, "û"@, "ü"@],
        'n' => seq!["ñ"@],
        'c' => seq!["ç"@],
    ]
}

/// The Spanish table: acute first; ñ and the y accents.
pub open spec fn locale_es_map() -> Map<char, Seq<Seq<char>>> {
    map![
        'a' => seq!["á"@, "à"@, "â"@, "ä"@],
        'e' => seq!["é"@, "è"@, "ê"@, "ë"@],
        'i' => seq!["í"@, "ì"@, "î"@, "ï"@],
        'o' => seq!["ó"@, "ò"@, "ô"@, "ö"@],
        'u' => seq!["ú"@, "ù"@, "û"@, "ü"@],
        'n' => seq!["ñ"@],
        'y' => seq!["ý"@, "ÿ"@],
    ]
}

/// The French table: includes the ligatures æ and œ, and ç.
pub open spec fn locale_fr_map() -> Map<char, Seq<Seq<char>>> {
    map![
        'a' => seq!["à"@, "â"@, "æ"@, "á"@, "ä"@],
        'e' => seq!["è"@, "é"@, "ê"@, "ë"@, "æ"@],
        'i' => seq!["î"@, "ï"@, "í"@, "ì"@],
        'o' => seq!["ô"@, "œ"@, "ö"@, "ò"@, "ó"@],
        'u' => seq!["ù"@, "û"@, "ü"@, "ú"@],
        'c' => seq!["ç"@],
        'y' => seq!["ÿ"@],
    ]
}

/// The German table: umlaut first on a, o, u; s maps to ß.
pub open spec fn locale_de_map() -> Map<char, Seq<Seq<char>>> {
    map![
        'a' => seq!["ä"@, "à"@, "á"@, "â"@],
        'e' => seq!["ë"@, "è"@, "é"@, "ê"@],
        'i' => seq!["ï"@, "ì"@, "í"@, "î"@],
        'o' => seq!["ö"@, "ò"@, "ó"@, "ô"@],
        'u' => seq!["ü"@, "ù"@, "ú"@, "û"@],
        's' => seq!["ß"@],
    ]
}

/// The Portuguese table: tilde first on a and o.
pub open spec fn locale_pt_map() -> Map<char, Seq<Seq<char>>> {
    map![
        'a' => seq!["ã"@, "á"@, "à"@, "â"@, "ä"@],
        'e' => seq!["é"@, "è"@, "ê"@, "ë"@],
        'i' => seq!["í"@, "ì"@, "î"@, "ï"@],
        'o' => seq!["õ"@, "ó"@, "ò"@, "ô"@, "ö"@],
        'u' => seq!["ú"@, "ù"@, "û"@, "ü"@],
        'c' => seq!["ç"@],
    ]
}

fn strs1(a: &str) -> (r: Vec<String>)
    ensures
        r.deep_view() == seq![a@],
        r@.len() == 1,
{
    let mut v: Vec<String> = Vec::new();
    v.push(String::from_str(a));
    proof {
        assert(v.deep_view() =~= seq![a@]);
    }
    v
}

fn strs2(a: &str, b: &str) -> (r: Vec<String>)
    ensures
        r.deep_view() == seq![a@, b@],
        r@.len() == 2,
{
    let mut v: Vec<String> = Vec::new();
    v.push(String::from_str(a));
    v.push(String::from_str(b));
    proof {
        assert(v.deep_view() =~= seq![a@, b@]);
    }
    v
}

fn strs4(a: &str, b: &str, c: &str, d: &str) -> (r: Vec<String>)
    ensures
        r.deep_view() == seq![a@, b@, c@, d@],
        r@.len() == 4,
{
    let mut v: Vec<String> = Vec::new();
    v.push(String::from_str(a));
    v.push(String::from_str(b));
    v.push(String::from_str(c));
    v.push(String::from_str(d));
    proof {
        assert(v.deep_view() =~= seq![a@, b@, c@, d@]);
    }
    v
}

fn strs5(a: &str, b: &str, c: &str, d: &str, e: &str) -> (r: Vec<String>)
    ensures
        r.deep_view() == seq![a@, b@, c@, d@, e@],
        r@.len() == 5,
{
    let mut v: Vec<String> = Vec::new();
    v.push(String::from_str(a));
    v.push(String::from_str(b));
    v.push(String::from_str(c));
    v.push(String::from_str(d));
    v.push(String::from_str(e));
    proof {
        assert(v.deep_view() =~= seq![a@, b@, c@, d@, e@]);
    }
    v
}

/// The built-in Italian locale map.
pub fn locale_it() -> (r: LocaleMap)
    ensures
        r@ == locale_it_map(),
{
    let mut entries: Vec<(char, Vec<String>)> = Vec::new();
    entries.push(('a', strs5("à", "á", "â", "ã", "ä")));
    entries.push(('e', strs4("è", "é", "ê", "ë")));
    entries.push(('i', strs4("ì", "í", "î", "ï")));
    entries.push(('o', strs5("ò", "ó", "ô", "õ", "ö")));
    entries.push(('u', strs4("ù", "ú", "û", "ü")));
    entries.push(('n', strs1("ñ")));
    entries.push(('c', strs1("ç")));
    proof {
        assert(valid_entries(entries@));
        reveal_with_fuel(entries_to_map, 9);
    }
    let m = LocaleMap { entries };
    proof {
        reveal_with_fuel(entries_to_map, 9);
        assert(m@ =~= locale_it_map());
    }
    m
}

/// The built-in Spanish locale map.
pub fn locale_es() -> (r: LocaleMap)
    ensures
        r@ == locale_es_map(),
{
    let mut entries: Vec<(char, Vec<String>)> = Vec::new();
    entries.push(('a', strs4("á", "à", "â", "ä")));
    entries.push(('e', strs4("é", "è", "ê", "ë")));
    entries.push(('i', strs4("í", "ì", "î", "ï")));
    entries.push(('o', strs4("ó", "ò", "ô", "ö")));
    entries.push(('u', strs4("ú", "ù", "û", "ü")));
    entries.push(('n', strs1("ñ")));
    entries.push(('y', strs2("ý", "ÿ")));
    proof {
        assert(valid_entries(entries@));
        reveal_with_fuel(entries_to_map, 9);
    }
    let m = LocaleMap { entries };
    proof {
        reveal_with_fuel(entries_to_map, 9);
        assert(m@ =~= locale_es_map());
    }
    m
}

/// The built-in French locale map.
pub fn locale_fr() -> (r: LocaleMap)
    ensures
        r@ == locale_fr_map(),
{
    let mut entries: Vec<(char, Vec<String>)> = Vec::new();
    entries.push(('a', strs5("à", "â", "æ", "á", "ä")));
    entries.push(('e', strs5("è", "é", "ê", "ë", "æ")));
    entries.push(('i', strs4("î", "ï", "í", "ì")));
    entries.push(('o', strs5("ô", "œ", "ö", "ò", "ó")));
    entries.push(('u', strs4("ù", "û", "ü", "ú")));
    entries.push(('c', strs1("ç")));
    entries.push(('y', strs1("ÿ")));
    proof {
        assert(valid_entries(entries@));
        reveal_with_fuel(entries_to_map, 9);
    }
    let m = LocaleMap { entries };
    proof {
        reveal_with_fuel(entries_to_map, 9);
        assert(m@ =~= locale_fr_map());
    }
    m
}

/// The built-in German locale map.
pub fn locale_de() -> (r: LocaleMap)
    ensures
        r@ == locale_de_map(),
{
    let mut entries: Vec<(char, Vec<String>)> = Vec::new();
    entries.push(('a', strs4("ä", "à", "á", "â")));
    entries.push(('e', strs4("ë", "è", "é", "ê")));
    entries.push(('i', strs4("ï", "ì", "í", "î")));
    entries.push(('o', strs4("ö", "ò", "ó", "ô")));
    entries.push(('u', strs4("ü", "ù", "ú", "û")));
    entries.push(('s', strs1("ß")));
    proof {
        assert(valid_entries(entries@));
        reveal_with_fuel(entries_to_map, 8);
    }
    let m = LocaleMap { entries };
    proof {
        reveal_with_fuel(entries_to_map, 8);
        assert(m@ =~= locale_de_map());
    }
    m
}

/// The built-in Portuguese locale map.
pub fn locale_pt() -> (r: LocaleMap)
    ensures
        r@ == locale_pt_map(),
{
    let mut entries: Vec<(char, Vec<String>)> = Vec::new();
    entries.push(('a', strs5("ã", "á", "à", "â", "ä")));
    entries.push(('e', strs4("é", "è", "ê", "ë")));
    entries.push(('i', strs4("í", "ì", "î", "ï")));
    entries.push(('o', strs5("õ", "ó", "ò", "ô", "ö")));
    entries.push(('u', strs4("ú", "ù", "û", "ü")));
    entries.push(('c', strs1("ç")));
    proof {
        assert(valid_entries(entries@));
        reveal_with_fuel(entries_to_map, 8);
    }
    let m = LocaleMap { entries };
    proof {
        reveal_with_fuel(entries_to_map, 8);
        assert(m@ =~= locale_pt_map());
    }
    m
}

/// The built-in accent map for a locale name; unknown names give the
/// empty map.
pub fn builtin_locale(name: &str) -> (r: LocaleMap)
    ensures
        name@ == "it"@ ==> r@ == locale_it_map(),
        name@ == "es"@ ==> r@ == locale_es_map(),
        name@ == "fr"@ ==> r@ == locale_fr_map(),
        name@ == "de"@ ==> r@ == locale_de_map(),
        name@ == "pt"@ ==> r@ == locale_pt_map(),
        name@ != "it"@ && name@ != "es"@ && name@ != "fr"@ && name@ != "de"@ && name@ != "pt"@
            ==> r@ == Map::<char, Seq<Seq<char>>>::empty(),
{
    proof {
        reveal_strlit("it");
        reveal_strlit("es");
        reveal_strlit("fr");
        reveal_strlit("de");
        reveal_strlit("pt");
        assert(("it"@) != ("es"@)) by {
            assert(("it"@)[0] != ("es"@)[0]);
        }
        assert(("it"@) != ("fr"@)) by {
            assert(("it"@)[0] != ("fr"@)[0]);
        }
        assert(("it"@) != ("de"@)) by {
            assert(("it"@)[0] != ("de"@)[0]);
        }
        assert(("it"@) != ("pt"@)) by {
            assert(("it"@)[0] != ("pt"@)[0]);
        }
        assert(("es"@) != ("fr"@)) by {
            assert(("es"@)[0] != ("fr"@)[0]);
        }
        assert(("es"@) != ("de"@)) by {
            assert(("es"@)[0] != ("de"@)[0]);
        }
        assert(("es"@) != ("pt"@)) by {
            assert(("es"@)[0] != ("pt"@)[0]);
        }
        assert(("fr"@) != ("de"@)) by {
            assert(("fr"@)[0] != ("de"@)[0]);
        }
        assert(("fr"@) != ("pt"@)) by {
            assert(("fr"@)[0] != ("pt"@)[0]);
        }
        assert(("de"@) != ("pt"@)) by {
            assert(("de"@)[0] != ("pt"@)[0]);
        }
    }
    if str_eq(name, "it") {
        locale_it()
    } else if str_eq(name, "es") {
        locale_es()
    } else if str_eq(name, "fr") {
        locale_fr()
    } else if str_eq(name, "de") {
        locale_de()
    } else if str_eq(name, "pt") {
        locale_pt()
    } else {
        LocaleMap::empty()
    }
}

} // verus!
