//! Sets of package names.

use vstd::prelude::*;

verus! {

/// The texts of a sequence of strings, one for one.
pub open spec fn texts(strings: Seq<String>) -> Seq<Seq<char>> {
    strings.map_values(|s: String| s@)
}

/// The test that keeps the names that `other` does not hold.
pub open spec fn not_in(other: Set<Seq<char>>) -> spec_fn(Seq<char>) -> bool {
    |n: Seq<char>| !other.contains(n)
}

/// The test that a character is no double quote.
pub open spec fn is_not_quote() -> spec_fn(char) -> bool {
    |c: char| c != '"'
}

/// `text` with every double quote taken out.
pub open spec fn without_quotes(text: Seq<char>) -> Seq<char> {
    text.filter(is_not_quote())
}

/// A filter changes nothing in a sequence whose items all pass it.
proof fn filter_keeps_all(s: Seq<char>, keep: spec_fn(char) -> bool)
    requires
        forall|i: int| 0 <= i < s.len() ==> keep(#[trigger] s[i]),
    ensures
        s.filter(keep) == s,
    decreases s.len(),
{
    reveal(Seq::filter);
    if s.len() > 0 {
        filter_keeps_all(s.drop_last(), keep);
        assert(s.drop_last().push(s.last()) =~= s);
    }
}

/// What is left of a text once its double quotes are taken out holds none.
pub proof fn without_quotes_has_none(text: Seq<char>)
    ensures
        !without_quotes(text).contains('"'),
        without_quotes(text).len() <= text.len(),
        without_quotes(without_quotes(text)) == without_quotes(text),
        !text.contains('"') ==> without_quotes(text) == text,
{
    let keep = is_not_quote();
    let out = text.filter(keep);
    text.lemma_filter_len(keep);
    assert forall|i: int| 0 <= i < out.len() implies keep(#[trigger] out[i]) by {
        text.lemma_filter_pred(keep, i);
    }
    assert forall|i: int| 0 <= i < text.len() && !text.contains('"') implies keep(
        #[trigger] text[i],
    ) by {
        assert(text.contains(text[i]));
    }
    if !text.contains('"') {
        filter_keeps_all(text, keep);
    }
    filter_keeps_all(out, keep);
}

/// `text` with every double quote taken out.
pub fn strip_quotes(text: &str) -> (clean: String)
    ensures
        clean@ == without_quotes(text@),
{
    let n: usize = text.unicode_len();
    let mut clean = String::new();
    let mut i: usize = 0;
    proof {
        reveal(Seq::filter);
        assert(text@.take(0) =~= Seq::<char>::empty());
    }
    while i < n
        invariant
            n == text@.len(),
            i <= n,
            clean@ == without_quotes(text@.take(i as int)),
        decreases n - i,
    {
        let c: char = text.get_char(i);
        proof {
            let next = text@.take(i as int + 1);
            assert(next.drop_last() =~= text@.take(i as int));
            assert(next.last() == c);
            reveal(Seq::filter);
        }
        if c != '"' {
            let piece: &str = text.substring_char(i, i + 1);
            assert(piece@ =~= seq![c]);
            let ghost before = clean@;
            clean.append(piece);
            assert(clean@ =~= before.push(c));
        }
        i += 1;
    }
    assert(text@.take(i as int) =~= text@);
    clean
}

/// `order` with `name` at its end, unless it holds `name` already.
pub open spec fn with_name(order: Seq<Seq<char>>, name: Seq<char>) -> Seq<Seq<char>> {
    if order.contains(name) {
        order
    } else {
        order.push(name)
    }
}

/// `order` after the names of `more` have arrived one after the other.
pub open spec fn with_names(order: Seq<Seq<char>>, more: Seq<Seq<char>>) -> Seq<Seq<char>>
    decreases more.len(),
{
    if more.len() == 0 {
        order
    } else {
        with_name(with_names(order, more.drop_last()), more.last())
    }
}

/// Names that arrive in two batches give the order that they give in one.
pub proof fn with_names_in_batches(
    order: Seq<Seq<char>>,
    first: Seq<Seq<char>>,
    second: Seq<Seq<char>>,
)
    ensures
        with_names(order, first + second) == with_names(with_names(order, first), second),
    decreases second.len(),
{
    if second.len() == 0 {
        assert(first + second =~= first);
    } else {
        with_names_in_batches(order, first, second.drop_last());
        assert((first + second).drop_last() =~= first + second.drop_last());
        assert((first + second).last() == second.last());
    }
}

/// A finite set of package names. Names are case-sensitive and kept in the
/// order in which they first arrived.
#[derive(Debug)]
pub struct NameSet {
    names: Vec<String>,
}

impl View for NameSet {
    type V = Set<Seq<char>>;

    open spec fn view(&self) -> Set<Seq<char>> {
        self.order().to_set()
    }
}

impl NameSet {
    /// The names in arrival order.
    pub closed spec fn order(&self) -> Seq<Seq<char>> {
        texts(self.names@)
    }

    /// No name occurs twice. This holds of every set at all times.
    #[verifier::type_invariant]
    pub open spec fn wf(&self) -> bool {
        self.order().no_duplicates()
    }

    /// The empty set.
    pub fn new() -> (set: NameSet)
        ensures
            set.order() == Seq::<Seq<char>>::empty(),
            set@ == Set::<Seq<char>>::empty(),
    {
        let names: Vec<String> = Vec::new();
        assert(texts(names@) =~= Seq::<Seq<char>>::empty());
        let set = NameSet { names };
        assert(set@ =~= Set::<Seq<char>>::empty());
        set
    }

    /// How many names the set holds.
    pub fn len(&self) -> (n: usize)
        ensures
            n == self.order().len(),
            n == self@.len(),
    {
        proof {
            use_type_invariant(self);
            self.order().unique_seq_to_set();
        }
        self.names.len()
    }

    /// Whether the set holds no name.
    pub fn is_empty(&self) -> (empty: bool)
        ensures
            empty == (self.order().len() == 0),
            empty == (self@ == Set::<Seq<char>>::empty()),
    {
        let empty = self.names.len() == 0;
        proof {
            if empty {
                assert(self@ =~= Set::<Seq<char>>::empty());
            } else {
                assert(self@.contains(self.order()[0]));
            }
        }
        empty
    }

    /// Whether `name` is a member.
    pub fn contains(&self, name: &String) -> (found: bool)
        ensures
            found == self@.contains(name@),
    {
        let mut i: usize = 0;
        while i < self.names.len()
            invariant
                i <= self.names.len(),
                forall|j: int| 0 <= j < i ==> self.order()[j] != name@,
            decreases self.names.len() - i,
        {
            if self.names[i] == *name {
                assert(self.order()[i as int] == name@);
                return true;
            }
            i += 1;
        }
        false
    }

    /// Adds `name` unless it is a member already, and says whether it was added.
    /// A new name goes to the end of the order.
    pub fn insert(&mut self, name: String) -> (added: bool)
        ensures
            final(self)@ == old(self)@.insert(name@),
            added == !old(self)@.contains(name@),
            final(self).order() == with_name(old(self).order(), name@),
            added == !old(self).order().contains(name@),
    {
        if self.contains(&name) {
            assert(self@ =~= self@.insert(name@));
            return false;
        }
        let ghost before = self.order();
        proof {
            use_type_invariant(&*self);
            assert(texts(self.names@.push(name)) =~= before.push(name@));
            assert(texts(Seq::<String>::empty()) =~= Seq::<Seq<char>>::empty());
            before.lemma_push_to_set_commute(name@);
        }
        // The list is taken out while it grows: the set is empty meanwhile.
        let mut names: Vec<String> = Vec::new();
        std::mem::swap(&mut self.names, &mut names);
        names.push(name);
        std::mem::swap(&mut self.names, &mut names);
        true
    }

    /// The name at position `i` of the order.
    pub fn get(&self, i: usize) -> (name: &String)
        requires
            i < self.order().len(),
        ensures
            name@ == self.order()[i as int],
    {
        &self.names[i]
    }

    /// The names in order, as owned strings.
    pub fn to_vec(&self) -> (names: Vec<String>)
        ensures
            texts(names@) == self.order(),
    {
        let mut names: Vec<String> = Vec::new();
        let mut i: usize = 0;
        while i < self.names.len()
            invariant
                i <= self.names.len(),
                names@.len() == i,
                forall|j: int| 0 <= j < i ==> names@[j]@ == self.order()[j],
            decreases self.names.len() - i,
        {
            names.push(self.names[i].clone());
            i += 1;
        }
        assert(texts(names@) =~= self.order());
        names
    }

    /// The set of the names in `names`; of a name that occurs more than once
    /// the first occurrence counts.
    pub fn from_names(names: &Vec<String>) -> (set: NameSet)
        ensures
            set@ == texts(names@).to_set(),
            set.order() == with_names(Seq::empty(), texts(names@)),
    {
        let mut set = NameSet::new();
        let mut i: usize = 0;
        assert(texts(names@).take(0) =~= Seq::<Seq<char>>::empty());
        while i < names.len()
            invariant
                i <= names.len(),
                set@ == texts(names@).take(i as int).to_set(),
                set.order() == with_names(Seq::empty(), texts(names@).take(i as int)),
            decreases names.len() - i,
        {
            let ghost seen = texts(names@).take(i as int);
            set.insert(names[i].clone());
            proof {
                let next = texts(names@).take(i as int + 1);
                assert(next =~= seen.push(names@[i as int]@));
                assert(next.drop_last() =~= seen);
                seen.lemma_push_to_set_commute(names@[i as int]@);
            }
            i += 1;
        }
        assert(texts(names@).take(i as int) =~= texts(names@));
        set
    }

    /// Adds every member of `other`; the new ones go to the end, in the order
    /// of `other`.
    pub fn absorb(&mut self, other: &NameSet)
        ensures
            final(self)@ == old(self)@.union(other@),
            final(self).order() == old(self).order() + other.order().filter(not_in(old(self)@)),
    {
        let ghost keep = not_in(old(self)@);
        let mut i: usize = 0;
        proof {
            reveal(Seq::filter);
            assert(other.order().take(0) =~= Seq::<Seq<char>>::empty());
            assert(self@ =~= self@.union(other.order().take(0).to_set()));
            assert(self.order() =~= self.order() + other.order().take(0).filter(keep));
        }
        while i < other.names.len()
            invariant
                i <= other.names.len(),
                keep == not_in(old(self)@),
                self@ == old(self)@.union(other.order().take(i as int).to_set()),
                self.order() == old(self).order() + other.order().take(i as int).filter(keep),
            decreases other.names.len() - i,
        {
            let ghost seen = other.order().take(i as int);
            let ghost name = other.order()[i as int];
            proof {
                use_type_invariant(other);
                let next = other.order().take(i as int + 1);
                assert(next =~= seen.push(name));
                assert(next.drop_last() =~= seen);
                reveal(Seq::filter);
                assert(next.filter(keep) == if keep(name) {
                    seen.filter(keep).push(name)
                } else {
                    seen.filter(keep)
                });
                seen.lemma_push_to_set_commute(name);
                if seen.to_set().contains(name) {
                    let k = choose|k: int| 0 <= k < seen.len() && seen[k] == name;
                    assert(other.order()[k] == other.order()[i as int]);
                }
            }
            self.insert(other.names[i].clone());
            proof {
                assert(self@ =~= old(self)@.union(seen.push(name).to_set()));
                if keep(name) {
                    assert(self.order() =~= old(self).order() + seen.filter(keep).push(name));
                }
            }
            i += 1;
        }
        assert(other.order().take(i as int) =~= other.order());
    }

    /// The members of `self` that `other` does not hold, in the order of `self`.
    pub fn difference(&self, other: &NameSet) -> (rest: NameSet)
        ensures
            rest@ == self@.difference(other@),
            rest.order() == self.order().filter(not_in(other@)),
    {
        let ghost keep = not_in(other@);
        let mut rest = NameSet::new();
        let mut i: usize = 0;
        proof {
            assert(self.order().take(0) =~= Seq::<Seq<char>>::empty());
            reveal(Seq::filter);
        }
        while i < self.names.len()
            invariant
                i <= self.names.len(),
                keep == not_in(other@),
                rest.order() == self.order().take(i as int).filter(keep),
            decreases self.names.len() - i,
        {
            let ghost seen = self.order().take(i as int);
            let ghost name = self.order()[i as int];
            proof {
                use_type_invariant(self);
                let next = self.order().take(i as int + 1);
                assert(next =~= seen.push(name));
                assert(next.drop_last() =~= seen);
                reveal(Seq::filter);
                assert(next.filter(keep) == if keep(name) {
                    seen.filter(keep).push(name)
                } else {
                    seen.filter(keep)
                });
                if rest@.contains(name) {
                    seen.lemma_filter_contains_rev(keep, name);
                    let k = choose|k: int| 0 <= k < seen.len() && seen[k] == name;
                    assert(self.order()[k] == self.order()[i as int]);
                }
            }
            if !other.contains(&self.names[i]) {
                rest.insert(self.names[i].clone());
            }
            i += 1;
        }
        proof {
            let all = self.order();
            assert(all.take(i as int) =~= all);
            assert forall|n: Seq<char>| rest@.contains(n) <==> self@.difference(other@).contains(
                n,
            ) by {
                if rest@.contains(n) {
                    all.lemma_filter_contains_rev(keep, n);
                    let k = choose|k: int| 0 <= k < all.filter(keep).len() && all.filter(keep)[k] == n;
                    all.lemma_filter_pred(keep, k);
                }
                if self@.contains(n) && keep(n) {
                    let k = choose|k: int| 0 <= k < all.len() && all[k] == n;
                    all.lemma_filter_contains(keep, k);
                }
            }
            assert(rest@ =~= self@.difference(other@));
        }
        rest
    }
}

} // verus!
