use vstd::prelude::*;
use crate::color::{is_literal, literal_color, strip_ats, Color};
use crate::error::{ErrorView, RenderError};

verus! {

/// The position of the last occurrence of `name`, or -1.
pub open spec fn last_index(names: Seq<Seq<char>>, name: Seq<char>) -> int
    decreases names.len(),
{
    if names.len() == 0 {
        -1
    } else if names.last() == name {
        names.len() - 1
    } else {
        last_index(names.drop_last(), name)
    }
}

pub open spec fn names_of<V>(v: Seq<(String, V)>) -> Seq<Seq<char>> {
    v.map_values(|p: (String, V)| p.0@)
}

proof fn lemma_last_index(names: Seq<Seq<char>>, name: Seq<char>)
    ensures
        -1 <= last_index(names, name) < names.len(),
        last_index(names, name) >= 0 ==> names[last_index(names, name)] == name,
        last_index(names, name) == -1 <==> !names.contains(name),
    decreases names.len(),
{
    if names.len() > 0 && names.last() != name {
        lemma_last_index(names.drop_last(), name);
        if names.contains(name) {
            let k = choose|k: int| 0 <= k < names.len() && names[k] == name;
            assert(names.drop_last()[k] == name);
        }
        if names.drop_last().contains(name) {
            let k = choose|k: int| 0 <= k < names.len() - 1 && names.drop_last()[k] == name;
            assert(names[k] == name);
        }
    } else if names.len() > 0 {
        assert(names[names.len() - 1] == name);
    }
}

/// Finds the last entry named `name`.
fn find_last<V>(v: &Vec<(String, V)>, name: &String) -> (r: Option<usize>)
    ensures
        match r {
            Some(i) => i as int == last_index(names_of(v@), name@) && i < v@.len() && v@[i as int].0@
                == name@,
            None => last_index(names_of(v@), name@) == -1,
        },
{
    let ghost names = names_of(v@);
    let mut i: usize = v.len();
    assert(names.take(i as int) =~= names);
    while i > 0
        invariant
            i <= v@.len(),
            names == names_of(v@),
            last_index(names, name@) == last_index(names.take(i as int), name@),
        decreases i,
    {
        if v[i - 1].0 == *name {
            return Some(i - 1);
        }
        assert(names.take(i as int).drop_last() =~= names.take(i - 1));
        i = i - 1;
    }
    None
}

/// A resolved set of named colors.
#[derive(Debug, Clone)]
pub struct ColorSet {
    set: Vec<(String, Color)>,
}

impl ColorSet {
    /// The entries, in order; a later entry hides an earlier one of its name.
    pub closed spec fn entries(&self) -> Seq<(Seq<char>, Color)> {
        self.set@.map_values(|p: (String, Color)| (p.0@, p.1))
    }

    pub closed spec fn names(&self) -> Seq<Seq<char>> {
        names_of(self.set@)
    }

    /// The color that each name stands for.
    pub open spec fn view(&self) -> Map<Seq<char>, Color> {
        Map::new(
            |k: Seq<char>| entry_names(self.entries()).contains(k),
            |k: Seq<char>| self.entries()[last_index(entry_names(self.entries()), k)].1,
        )
    }

    /// A set that holds the given entries.
    pub fn new(set: Vec<(String, Color)>) -> (r: ColorSet)
        ensures
            r.entries() == set@.map_values(|p: (String, Color)| (p.0@, p.1)),
    {
        ColorSet { set }
    }

    /// The color that `name` stands for.
    pub fn get(&self, name: &str) -> (r: Result<&Color, RenderError>)
        ensures
            match r {
                Ok(c) => self@.contains_key(name@) && *c == self@[name@],
                Err(e) => !self@.contains_key(name@) && e@ == ErrorView::UnknownColor(name@),
            },
    {
        let key: String = String::from_str(name);
        let ghost names = entry_names(self.entries());
        assert(names =~= names_of(self.set@));
        proof {
            lemma_last_index(names, name@);
        }
        match find_last(&self.set, &key) {
            Some(i) => Ok(&self.set[i].1),
            None => Err(RenderError::UnknownColor(key)),
        }
    }
}

/// An entry under construction: a color, or the name of another entry.
#[derive(Debug, Clone)]
pub enum ColorEntry {
    Actual(Color),
    Name(String),
}

pub enum EntryView {
    Actual(Color),
    Name(Seq<char>),
}

impl View for ColorEntry {
    type V = EntryView;

    open spec fn view(&self) -> EntryView {
        match self {
            ColorEntry::Actual(c) => EntryView::Actual(*c),
            ColorEntry::Name(s) => EntryView::Name(s@),
        }
    }
}

/// Where following an entry's aliases ends.
#[derive(Debug, Clone, Copy, PartialEq, Eq)]
pub enum Resolution {
    Found(Color),
    Unknown,
    Cycle,
}

/// The names of the entries, in order.
pub open spec fn entry_names<V>(s: Seq<(Seq<char>, V)>) -> Seq<Seq<char>> {
    s.map_values(|p: (Seq<char>, V)| p.0)
}

/// Follows aliases from `name`, taking at most `fuel` steps from an alias to
/// the entry it names: a literal ends in `Found`, a name with no entry in
/// `Unknown`, and running out of steps (which only a loop of aliases can
/// cause) in `Cycle`.
pub open spec fn resolve(s: Seq<(Seq<char>, EntryView)>, name: Seq<char>, fuel: nat) -> Resolution
    decreases fuel,
{
    let i = last_index(entry_names(s), name);
    if i < 0 || i >= s.len() {
        Resolution::Unknown
    } else {
        match s[i].1 {
            EntryView::Actual(c) => Resolution::Found(c),
            EntryView::Name(t) => if fuel == 0 {
                Resolution::Cycle
            } else {
                resolve(s, t, (fuel - 1) as nat)
            },
        }
    }
}

/// How entry `i` resolves: a chain that never repeats a name has ended
/// within as many steps as there are entries.
pub open spec fn resolution_of(s: Seq<(Seq<char>, EntryView)>, i: int) -> Resolution {
    resolve(s, s[i].0, s.len())
}

/// The first entry from `i` on that does not resolve to a color, or the
/// number of entries if there is none.
pub open spec fn first_unresolved(s: Seq<(Seq<char>, EntryView)>, i: int) -> int
    decreases s.len() - i,
{
    if i >= s.len() || i < 0 {
        s.len() as int
    } else if resolution_of(s, i) is Found {
        first_unresolved(s, i + 1)
    } else {
        i
    }
}

/// What resolving every entry gives: each name with its color, or the error
/// of the first entry that does not resolve.
pub open spec fn build_outcome(s: Seq<(Seq<char>, EntryView)>) -> Result<
    Seq<(Seq<char>, Color)>,
    ErrorView,
> {
    let k = first_unresolved(s, 0);
    if k >= s.len() {
        Ok(Seq::new(s.len(), |i: int| (s[i].0, resolution_of(s, i)->Found_0)))
    } else {
        match resolution_of(s, k) {
            Resolution::Unknown => Err(ErrorView::UnknownColor(s[k].0)),
            _ => Err(ErrorView::ColorCycle(s[k].0)),
        }
    }
}

/// What an entry holds once its text is read: a literal color, or a name.
pub open spec fn entry_for(text: Seq<char>) -> EntryView {
    if is_literal(text) {
        EntryView::Actual(literal_color(strip_ats(text))->0)
    } else {
        EntryView::Name(text)
    }
}

/// `s` with the entry `name` set to `e`: in place where the name is there
/// already, else at the end.
pub open spec fn upsert(s: Seq<(Seq<char>, EntryView)>, name: Seq<char>, e: EntryView) -> Seq<
    (Seq<char>, EntryView),
> {
    let names = entry_names(s);
    if names.contains(name) {
        s.update(last_index(names, name), (name, e))
    } else {
        s.push((name, e))
    }
}

/// Collects named colors, some of which refer to others by name.
#[derive(Debug, Clone)]
pub struct ColorSetBuilder {
    set: Vec<(String, ColorEntry)>,
}

impl ColorSetBuilder {
    pub closed spec fn entries(&self) -> Seq<(Seq<char>, EntryView)> {
        self.set@.map_values(|p: (String, ColorEntry)| (p.0@, p.1@))
    }

    /// No two entries share a name.
    pub open spec fn wf(&self) -> bool {
        unique_names(self.entries())
    }

    /// An empty builder.
    pub fn new() -> (r: ColorSetBuilder)
        ensures
            r.wf(),
            r.entries().len() == 0,
    {
        let r = ColorSetBuilder { set: Vec::new() };
        assert(r.entries() =~= Seq::empty());
        r
    }

    /// Records `name` as `color`: a literal when the text is one, else a
    /// reference to the entry of that name. An existing entry of the same
    /// name is replaced in place. A malformed literal is an error and
    /// changes nothing.
    pub fn append(&mut self, name: String, color: String) -> (r: Result<(), RenderError>)
        requires
            old(self).wf(),
        ensures
            final(self).wf(),
            r is Err <==> is_literal(color@) && literal_color(strip_ats(color@)) is None,
            r is Err ==> final(self).entries() == old(self).entries()
                && r->Err_0@ == ErrorView::MalformedColorLiteral(color@),
            r is Ok ==> final(self).entries() == upsert(
                old(self).entries(),
                name@,
                entry_for(color@),
            ),
    {
        let entry: ColorEntry = match Color::parse(color.as_str()) {
            Err(e) => {
                return Err(e);
            },
            Ok(Some(c)) => ColorEntry::Actual(c),
            Ok(None) => ColorEntry::Name(color),
        };
        let ghost old_entries = self.entries();
        let ghost old_names = entry_names(old_entries);
        assert(old_names =~= names_of(self.set@));
        proof {
            lemma_last_index(old_names, name@);
        }
        match find_last(&self.set, &name) {
            Some(i) => {
                self.set.set(i, (name, entry));
                assert(self.entries() =~= old_entries.update(i as int, (name@, entry@)));
            },
            None => {
                self.set.push((name, entry));
                assert(self.entries() =~= old_entries.push((name@, entry@)));
                assert forall|k: int| 0 <= k < old_entries.len() implies old_entries[k].0
                    != name@ by {
                    if old_entries[k].0 == name@ {
                        assert(old_names[k] == name@);
                    }
                }
            },
        }
        Ok(())
    }

    /// Resolves every entry to a color. The first entry, in order, whose
    /// aliases lead to a missing name gives `UnknownColor`, one whose aliases
    /// loop gives `ColorCycle`.
    pub fn build(&self) -> (r: Result<ColorSet, RenderError>)
        ensures
            match r {
                Ok(set) => build_outcome(self.entries()) == Ok::<_, ErrorView>(set.entries()),
                Err(e) => build_outcome(self.entries()) == Err::<Seq<(Seq<char>, Color)>, _>(e@),
            },
    {
        let ghost s = self.entries();
        let n: usize = self.set.len();
        let mut out: Vec<(String, Color)> = Vec::new();
        let mut i: usize = 0;
        while i < n
            invariant
                n == self.set@.len() == s.len(),
                s == self.entries(),
                i <= n,
                out@.len() == i,
                first_unresolved(s, 0) == first_unresolved(s, i as int),
                forall|j: int| 0 <= j < i ==> #[trigger] resolution_of(s, j) is Found,
                forall|j: int|
                    0 <= j < i ==> (#[trigger] out@[j]).0@ == s[j].0 && out@[j].1
                        == resolution_of(s, j)->Found_0,
            decreases n - i,
        {
            let res: Resolution = self.resolve_exec(&self.set[i].0, n);
            assert(s[i as int].0 == self.set@[i as int].0@);
            match res {
                Resolution::Found(c) => {
                    out.push((self.set[i].0.clone(), c));
                },
                Resolution::Unknown => {
                    return Err(RenderError::UnknownColor(self.set[i].0.clone()));
                },
                Resolution::Cycle => {
                    return Err(RenderError::ColorCycle(self.set[i].0.clone()));
                },
            }
            i = i + 1;
        }
        let r = ColorSet::new(out);
        assert(r.entries() =~= Seq::new(
            s.len(),
            |i: int| (s[i].0, resolution_of(s, i)->Found_0),
        ));
        Ok(r)
    }

    fn resolve_exec(&self, name: &String, fuel: usize) -> (r: Resolution)
        ensures
            r == resolve(self.entries(), name@, fuel as nat),
    {
        let ghost s = self.entries();
        let ghost names = entry_names(s);
        assert(names =~= names_of(self.set@));
        let mut cur: String = name.clone();
        let mut f: usize = fuel;
        loop
            invariant
                s == self.entries(),
                names == entry_names(s),
                names == names_of(self.set@),
                resolve(s, name@, fuel as nat) == resolve(s, cur@, f as nat),
            decreases f,
        {
            proof {
                lemma_last_index(names, cur@);
            }
            match find_last(&self.set, &cur) {
                None => {
                    return Resolution::Unknown;
                },
                Some(i) => {
                    assert(s[i as int] == (self.set@[i as int].0@, self.set@[i as int].1@));
                    match &self.set[i].1 {
                        ColorEntry::Actual(c) => {
                            return Resolution::Found(*c);
                        },
                        ColorEntry::Name(t) => {
                            if f == 0 {
                                return Resolution::Cycle;
                            }
                            cur = t.clone();
                            f = f - 1;
                        },
                    }
                },
            }
        }
    }
}

/// No two entries share a name.
pub open spec fn unique_names(s: Seq<(Seq<char>, EntryView)>) -> bool {
    forall|i: int, j: int| 0 <= i < j < s.len() ==> s[i].0 != s[j].0
}

proof fn lemma_index_of_unique(s: Seq<(Seq<char>, EntryView)>, i: int)
    requires
        unique_names(s),
        0 <= i < s.len(),
    ensures
        last_index(entry_names(s), s[i].0) == i,
{
    let names = entry_names(s);
    lemma_last_index(names, s[i].0);
    assert(names[i] == s[i].0);
    let k = last_index(names, s[i].0);
    assert(names.contains(s[i].0));
    assert(s[k].0 == names[k]);
}

proof fn lemma_self_alias_cycles(s: Seq<(Seq<char>, EntryView)>, i: int, fuel: nat)
    requires
        unique_names(s),
        0 <= i < s.len(),
        s[i].1 == EntryView::Name(s[i].0),
    ensures
        resolve(s, s[i].0, fuel) == Resolution::Cycle,
    decreases fuel,
{
    lemma_index_of_unique(s, i);
    if fuel > 0 {
        lemma_self_alias_cycles(s, i, (fuel - 1) as nat);
    }
}

/// Resolving a set: an entry that names itself is a cycle; an entry that
/// names a missing entry is unknown; an entry that names a literal entry
/// takes its color.
pub proof fn law_resolution_basics(s: Seq<(Seq<char>, EntryView)>, i: int)
    requires
        unique_names(s),
        0 <= i < s.len(),
    ensures
        s[i].1 == EntryView::Name(s[i].0) ==> resolution_of(s, i) == Resolution::Cycle,
        forall|t: Seq<char>|
            s[i].1 == EntryView::Name(t) && !entry_names(s).contains(t) ==> resolution_of(s, i)
                == Resolution::Unknown,
        forall|j: int, c: Color|
            0 <= j < s.len() && s[i].1 == EntryView::Name(s[j].0) && s[j].1 == EntryView::Actual(
                c,
            ) ==> resolution_of(s, i) == Resolution::Found(c),
        forall|c: Color| s[i].1 == EntryView::Actual(c) ==> resolution_of(s, i) == Resolution::Found(c),
{
    lemma_index_of_unique(s, i);
    if s[i].1 == EntryView::Name(s[i].0) {
        lemma_self_alias_cycles(s, i, s.len());
    }
    assert forall|t: Seq<char>|
        s[i].1 == EntryView::Name(t) && !entry_names(s).contains(t) implies resolution_of(s, i)
        == Resolution::Unknown by {
        lemma_last_index(entry_names(s), t);
        reveal_with_fuel(resolve, 2);
    }
    assert forall|j: int, c: Color|
        0 <= j < s.len() && s[i].1 == EntryView::Name(s[j].0) && s[j].1 == EntryView::Actual(
            c,
        ) implies resolution_of(s, i) == Resolution::Found(c) by {
        lemma_index_of_unique(s, j);
        reveal_with_fuel(resolve, 2);
    }
}

} // verus!
