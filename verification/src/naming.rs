//! Names that are unique within a chunk.

use crate::error::BuildError;
use crate::graph::LinkStageOutput;
use crate::ids::SymbolRef;
use crate::table::OrderedMap;
use crate::text::views;
use rustc_hash::FxHashSet;
use vstd::prelude::*;

verus! {

/// The character of the decimal digit `digit`.
pub open spec fn digit_char(digit: nat) -> char {
    if digit == 0 {
        '0'
    } else if digit == 1 {
        '1'
    } else if digit == 2 {
        '2'
    } else if digit == 3 {
        '3'
    } else if digit == 4 {
        '4'
    } else if digit == 5 {
        '5'
    } else if digit == 6 {
        '6'
    } else if digit == 7 {
        '7'
    } else if digit == 8 {
        '8'
    } else {
        '9'
    }
}

/// The number `n` in decimal digits, without leading zeros.
pub open spec fn decimal(n: nat) -> Seq<char>
    decreases n,
{
    if n < 10 {
        seq![digit_char(n)]
    } else {
        decimal(n / 10).push(digit_char(n % 10))
    }
}

/// The `n`-th name that is tried for a symbol declared as `declared`: first
/// the declared name itself, then the declared name with `$1`, `$2` and so
/// on behind it.
pub open spec fn candidate(declared: Seq<char>, n: nat) -> Seq<char> {
    if n == 0 {
        declared
    } else {
        declared + seq!['$'] + decimal(n)
    }
}

/// Whether `n` is the first candidate for `declared` that `used` lacks.
pub open spec fn is_first_free(declared: Seq<char>, used: Set<Seq<char>>, n: nat) -> bool {
    &&& !used.contains(candidate(declared, n))
    &&& forall|m: nat| m < n ==> used.contains(#[trigger] candidate(declared, m))
}

/// The name that a symbol declared as `declared` gets where the names in
/// `used` are taken: the first candidate that is not among them.
pub open spec fn fresh_name(declared: Seq<char>, used: Set<Seq<char>>) -> Seq<char> {
    candidate(declared, choose|n: nat| is_first_free(declared, used, n))
}

/// Decimal numerals are never empty.
pub proof fn lemma_decimal_len(n: nat)
    ensures
        decimal(n).len() >= 1,
        n >= 10 ==> decimal(n).len() >= 2,
    decreases n,
{
    if n >= 10 {
        lemma_decimal_len(n / 10);
    }
}

/// Two numbers with the same numeral are the same number.
pub proof fn lemma_decimal_injective(a: nat, b: nat)
    requires
        decimal(a) == decimal(b),
    ensures
        a == b,
    decreases a,
{
    lemma_decimal_len(a);
    lemma_decimal_len(b);
    if a < 10 && b < 10 {
        assert(decimal(a)[0] == digit_char(a));
        assert(decimal(b)[0] == digit_char(b));
    } else if a >= 10 && b >= 10 {
        assert(decimal(a).last() == digit_char(a % 10));
        assert(decimal(b).last() == digit_char(b % 10));
        assert(decimal(a).drop_last() =~= decimal(a / 10));
        assert(decimal(b).drop_last() =~= decimal(b / 10));
        lemma_decimal_injective(a / 10, b / 10);
        assert(a % 10 == b % 10);
        assert(a == 10 * (a / 10) + a % 10);
        assert(b == 10 * (b / 10) + b % 10);
    } else {
        assert(decimal(a).len() != decimal(b).len());
    }
}

/// Two candidates for one declared name that are the same text have the
/// same number.
pub proof fn lemma_candidate_injective(declared: Seq<char>, m: nat, n: nat)
    requires
        candidate(declared, m) == candidate(declared, n),
    ensures
        m == n,
{
    lemma_decimal_len(m);
    lemma_decimal_len(n);
    if m > 0 && n > 0 {
        let prefix = declared + seq!['$'];
        assert((prefix + decimal(m)).subrange(prefix.len() as int, (prefix + decimal(m)).len() as int)
            =~= decimal(m));
        assert((prefix + decimal(n)).subrange(prefix.len() as int, (prefix + decimal(n)).len() as int)
            =~= decimal(n));
        lemma_decimal_injective(m, n);
    } else if m > 0 {
        assert(candidate(declared, m).len() > declared.len());
    } else if n > 0 {
        assert(candidate(declared, n).len() > declared.len());
    }
}

/// A finite set that holds the first `n` candidates for a name holds at
/// least `n` names.
pub proof fn lemma_candidates_fill(declared: Seq<char>, used: Set<Seq<char>>, n: nat)
    requires
        used.finite(),
        forall|m: nat| m < n ==> used.contains(#[trigger] candidate(declared, m)),
    ensures
        n <= used.len(),
    decreases n,
{
    if n > 0 {
        let last = candidate(declared, (n - 1) as nat);
        let rest = used.remove(last);
        assert forall|m: nat| m < n - 1 implies rest.contains(#[trigger] candidate(declared, m)) by {
            if candidate(declared, m) == last {
                lemma_candidate_injective(declared, m, (n - 1) as nat);
            }
        }
        lemma_candidates_fill(declared, rest, (n - 1) as nat);
    }
}

/// The first free candidate is the name that `fresh_name` gives, and it is
/// not among the used ones.
pub proof fn lemma_fresh_name(declared: Seq<char>, used: Set<Seq<char>>, n: nat)
    requires
        is_first_free(declared, used, n),
    ensures
        fresh_name(declared, used) == candidate(declared, n),
        !used.contains(fresh_name(declared, used)),
{
    let chosen = choose|k: nat| is_first_free(declared, used, k);
    if chosen < n {
        assert(used.contains(candidate(declared, chosen)));
    } else if n < chosen {
        assert(used.contains(candidate(declared, n)));
    }
}

/// The names that are taken in a chunk.
pub type NameSet = FxHashSet<String>;

/// The names that a name set holds.
pub uninterp spec fn names_in(set: NameSet) -> Set<Seq<char>>;

/// `FxHashSet::default`: a set without names.
#[verifier::external_body]
pub(crate) fn name_set_new() -> (set: NameSet)
    ensures
        names_in(set) == Set::<Seq<char>>::empty(),
{
    FxHashSet::default()
}

/// `HashSet::insert` on a set hashed by `FxHasher`: afterwards the set holds
/// the name beside what it held before.
#[verifier::external_body]
pub(crate) fn name_set_insert(set: &mut NameSet, name: String)
    ensures
        names_in(*final(set)) == names_in(*old(set)).insert(name@),
{
    set.insert(name);
}

/// `HashSet::contains` on a set hashed by `FxHasher`: whether the set holds
/// the name.
#[verifier::external_body]
pub(crate) fn name_set_contains(set: &NameSet, name: &str) -> (held: bool)
    ensures
        held == names_in(*set).contains(name@),
{
    set.contains(name)
}

/// The symbols that have a name, in the order in which they got it, and
/// the name of each.
pub struct Naming {
    pub symbols: Seq<SymbolRef>,
    pub names: Seq<Seq<char>>,
}

impl Naming {
    /// Whether `symbol` has a name.
    pub open spec fn has(self, symbol: SymbolRef) -> bool {
        self.symbols.contains(symbol)
    }

    /// The name of `symbol`, where it has one.
    pub open spec fn name_of(self, symbol: SymbolRef) -> Seq<char> {
        self.names[self.symbols.index_of(symbol)]
    }
}

/// Gives `symbol` a name, unless it has one: the first candidate for its
/// declared name that none of the symbols named before it has. A symbol
/// whose slot the module table lacks dangles.
pub open spec fn name_one(naming: Naming, graph: &LinkStageOutput, symbol: SymbolRef) -> Result<
    Naming,
    BuildError,
> {
    if naming.symbols.contains(symbol) {
        Ok(naming)
    } else if graph.declares(symbol) {
        Ok(
            Naming {
                symbols: naming.symbols.push(symbol),
                names: naming.names.push(
                    fresh_name(graph.declared_as(symbol), naming.names.to_set()),
                ),
            },
        )
    } else {
        Err(BuildError::DanglingReference { symbol })
    }
}

/// Names `symbols` one after the other; the first that dangles ends the
/// naming.
pub open spec fn name_all(naming: Naming, graph: &LinkStageOutput, symbols: Seq<SymbolRef>) -> Result<
    Naming,
    BuildError,
>
    decreases symbols.len(),
{
    if symbols.len() == 0 {
        Ok(naming)
    } else {
        match name_all(naming, graph, symbols.drop_last()) {
            Ok(before) => name_one(before, graph, symbols.last()),
            Err(error) => Err(error),
        }
    }
}

/// Whether no two symbols share a name and no symbol has two.
pub open spec fn unique(naming: Naming) -> bool {
    &&& naming.symbols.len() == naming.names.len()
    &&& naming.symbols.no_duplicates()
    &&& naming.names.no_duplicates()
}

/// Among finitely many used names some candidate is free: if the first `n`
/// candidates are used, a later one is the first free one.
pub proof fn lemma_first_free_exists(declared: Seq<char>, used: Set<Seq<char>>, n: nat)
    requires
        used.finite(),
        forall|m: nat| m < n ==> used.contains(#[trigger] candidate(declared, m)),
    ensures
        exists|k: nat| is_first_free(declared, used, k),
    decreases used.len() - n,
{
    lemma_candidates_fill(declared, used, n);
    if used.contains(candidate(declared, n)) {
        assert forall|m: nat| m < n + 1 implies used.contains(
            #[trigger] candidate(declared, m),
        ) by {
            if m == n {
            }
        }
        lemma_candidates_fill(declared, used, n + 1);
        lemma_first_free_exists(declared, used, n + 1);
    } else {
        assert(is_first_free(declared, used, n));
    }
}

/// Naming a symbol keeps the names unique.
pub proof fn lemma_name_one_unique(naming: Naming, graph: &LinkStageOutput, symbol: SymbolRef)
    requires
        unique(naming),
    ensures
        match name_one(naming, graph, symbol) {
            Ok(after) => unique(after),
            Err(_) => true,
        },
{
    if !naming.symbols.contains(symbol) && graph.declares(symbol) {
        let used = naming.names.to_set();
        let declared = graph.declared_as(symbol);
        vstd::seq_lib::seq_to_set_is_finite(naming.names);
        lemma_first_free_exists(declared, used, 0);
        let k = choose|k: nat| is_first_free(declared, used, k);
        lemma_fresh_name(declared, used, k);
        let name = fresh_name(declared, used);
        assert(!naming.names.contains(name));
        let after = name_one(naming, graph, symbol)->Ok_0;
        assert forall|i: int, j: int|
            0 <= i < after.names.len() && 0 <= j < after.names.len() && i != j implies after.names[i]
            != after.names[j] by {
            if i < naming.names.len() {
                assert(naming.names.contains(after.names[i]));
            }
            if j < naming.names.len() {
                assert(naming.names.contains(after.names[j]));
            }
        }
        assert forall|i: int, j: int|
            0 <= i < after.symbols.len() && 0 <= j < after.symbols.len() && i
                != j implies after.symbols[i] != after.symbols[j] by {
            if i < naming.symbols.len() {
                assert(naming.symbols.contains(after.symbols[i]));
            }
            if j < naming.symbols.len() {
                assert(naming.symbols.contains(after.symbols[j]));
            }
        }
    }
}

/// Naming symbols one after the other keeps the names unique.
pub proof fn lemma_name_all_unique(naming: Naming, graph: &LinkStageOutput, symbols: Seq<SymbolRef>)
    requires
        unique(naming),
    ensures
        match name_all(naming, graph, symbols) {
            Ok(after) => unique(after),
            Err(_) => true,
        },
    decreases symbols.len(),
{
    if symbols.len() > 0 {
        lemma_name_all_unique(naming, graph, symbols.drop_last());
        match name_all(naming, graph, symbols.drop_last()) {
            Ok(before) => {
                lemma_name_one_unique(before, graph, symbols.last());
            },
            Err(_) => {},
        }
    }
}

/// Naming one symbol more.
pub proof fn lemma_name_all_step(
    naming: Naming,
    graph: &LinkStageOutput,
    symbols: Seq<SymbolRef>,
    n: int,
)
    requires
        0 <= n < symbols.len(),
    ensures
        name_all(naming, graph, symbols.take(n + 1)) == match name_all(
            naming,
            graph,
            symbols.take(n),
        ) {
            Ok(before) => name_one(before, graph, symbols[n]),
            Err(error) => Err(error),
        },
{
    assert(symbols.take(n + 1).drop_last() =~= symbols.take(n));
}

/// A symbol that dangles among the first `n` ends the naming of all.
pub proof fn lemma_name_all_fails(
    naming: Naming,
    graph: &LinkStageOutput,
    symbols: Seq<SymbolRef>,
    n: int,
)
    requires
        0 <= n <= symbols.len(),
        name_all(naming, graph, symbols.take(n)) is Err,
    ensures
        name_all(naming, graph, symbols) == name_all(naming, graph, symbols.take(n)),
    decreases symbols.len() - n,
{
    if n == symbols.len() {
        assert(symbols.take(n) =~= symbols);
    } else {
        lemma_name_all_step(naming, graph, symbols, n);
        lemma_name_all_fails(naming, graph, symbols, n + 1);
    }
}

fn digit_text(digit: usize) -> (text: &'static str)
    requires
        digit < 10,
    ensures
        text@ == seq![digit_char(digit as nat)],
{
    proof {
        reveal_strlit("0");
        reveal_strlit("1");
        reveal_strlit("2");
        reveal_strlit("3");
        reveal_strlit("4");
        reveal_strlit("5");
        reveal_strlit("6");
        reveal_strlit("7");
        reveal_strlit("8");
        reveal_strlit("9");
    }
    let text = if digit == 0 {
        "0"
    } else if digit == 1 {
        "1"
    } else if digit == 2 {
        "2"
    } else if digit == 3 {
        "3"
    } else if digit == 4 {
        "4"
    } else if digit == 5 {
        "5"
    } else if digit == 6 {
        "6"
    } else if digit == 7 {
        "7"
    } else if digit == 8 {
        "8"
    } else {
        "9"
    };
    proof {
        assert(text@ =~= seq![digit_char(digit as nat)]);
    }
    text
}

/// Writes `n` in decimal digits.
pub fn decimal_text(n: usize) -> (text: String)
    ensures
        text@ == decimal(n as nat),
    decreases n,
{
    if n < 10 {
        digit_text(n).to_string()
    } else {
        let mut text = decimal_text(n / 10);
        text.append(digit_text(n % 10));
        text
    }
}

/// Writes the `n`-th candidate for `declared`.
pub fn candidate_text(declared: &str, n: usize) -> (text: String)
    ensures
        text@ == candidate(declared@, n as nat),
{
    let mut text = declared.to_string();
    if n > 0 {
        proof {
            reveal_strlit("$");
            assert("$"@ =~= seq!['$']);
        }
        text.append("$");
        text.append(decimal_text(n).as_str());
    }
    text
}

/// The names of one chunk while they are given out.
pub(crate) struct Namer {
    names: OrderedMap<SymbolRef, String>,
    used: NameSet,
}

impl Namer {
    /// The symbols named so far and their names.
    pub closed spec fn naming(&self) -> Naming {
        Naming { symbols: self.names.keys(), names: views(self.names.values()) }
    }

    /// The used names are those of the table, and no two symbols share one.
    pub closed spec fn wf(&self) -> bool {
        &&& self.names.wf()
        &&& names_in(self.used) == views(self.names.values()).to_set()
        &&& views(self.names.values()).no_duplicates()
    }

    /// A namer that has named nothing.
    pub(crate) fn new() -> (namer: Self)
        ensures
            namer.wf(),
            namer.naming() == (Naming { symbols: Seq::empty(), names: Seq::empty() }),
    {
        let namer = Namer { names: OrderedMap::new(), used: name_set_new() };
        proof {
            assert(views(namer.names.values()) =~= Seq::empty());
            assert(views(namer.names.values()).to_set() =~= Set::empty());
        }
        namer
    }

    /// The table of the names given out.
    pub(crate) fn finish(self) -> (names: OrderedMap<SymbolRef, String>)
        requires
            self.wf(),
        ensures
            names.wf(),
            names.keys() == self.naming().symbols,
            views(names.values()) == self.naming().names,
            views(names.values()).no_duplicates(),
    {
        self.names
    }

    /// Gives `symbol` a name, unless it has one.
    pub(crate) fn name(&mut self, graph: &LinkStageOutput, symbol: SymbolRef) -> (done: Result<
        (),
        BuildError,
    >)
        requires
            old(self).wf(),
        ensures
            final(self).wf(),
            match done {
                Ok(_) => name_one(old(self).naming(), graph, symbol) == Ok::<Naming, BuildError>(
                    final(self).naming(),
                ),
                Err(error) => name_one(old(self).naming(), graph, symbol) == Err::<
                    Naming,
                    BuildError,
                >(error) && final(self).naming() == old(self).naming(),
            },
    {
        if self.names.position(symbol).is_some() {
            return Ok(());
        }
        let declared = match graph.declared_name(symbol) {
            Some(declared) => declared,
            None => {
                return Err(BuildError::DanglingReference { symbol });
            },
        };
        let ghost used = names_in(self.used);
        let ghost taken = views(self.names.values());
        let count = self.names.len();
        proof {
            vstd::seq_lib::seq_to_set_is_finite(taken);
            taken.lemma_cardinality_of_set();
        }
        let mut n: usize = 0;
        let mut text = candidate_text(declared.as_str(), 0);
        while name_set_contains(&self.used, text.as_str())
            invariant
                used == names_in(self.used),
                used.finite(),
                used.len() <= count,
                n <= used.len(),
                text@ == candidate(declared@, n as nat),
                forall|m: nat| m < n ==> used.contains(#[trigger] candidate(declared@, m)),
            decreases used.len() - n,
        {
            proof {
                assert forall|m: nat| m < n + 1 implies used.contains(
                    #[trigger] candidate(declared@, m),
                ) by {
                    if m == n {
                    }
                }
                lemma_candidates_fill(declared@, used, (n + 1) as nat);
            }
            n += 1;
            text = candidate_text(declared.as_str(), n);
        }
        proof {
            lemma_fresh_name(declared@, used, n as nat);
            taken.lemma_push_to_set_commute(text@);
            assert(views(self.names.values().push(text)) =~= taken.push(text@));
        }
        name_set_insert(&mut self.used, text.clone());
        self.names.insert(symbol, text);
        Ok(())
    }
}

} // verus!
