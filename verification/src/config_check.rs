//! Checks on a configuration that has been read.

use vstd::prelude::*;
use crate::config::{contains, distinct, insert, Config, DepositConfig, PortfolioConfig};
use crate::text::same_text;

verus! {

/// What makes a configuration unusable.
#[derive(Clone, Copy, Debug, PartialEq, Eq, Structural)]
pub enum ConfigProblem {
    /// The deposit at this place closes before it opens.
    InvalidDepositDates(usize),
    /// The deposit at this place has a contribution outside its term.
    InvalidDepositContributionDate(usize),
    /// The portfolio at this place has the name of an earlier one.
    DuplicatePortfolioName(usize),
    /// The portfolio at this place is in a currency other than RUB and USD.
    UnsupportedPortfolioCurrency(usize),
    /// The portfolio at this place remaps a symbol to one that is remapped
    /// itself.
    RecursiveSymbolRemapping(usize),
    /// The portfolio at this place merges the performance of a symbol more
    /// than once.
    DuplicatedMergedSymbol(usize),
}

/// A contribution lies outside the term of the deposit.
pub open spec fn contribution_outside(deposit: DepositConfig) -> bool {
    exists|i: int|
        0 <= i < deposit.contributions@.len() && ((#[trigger] deposit.contributions@[i]).0.days
            < deposit.open_date.days || deposit.contributions@[i].0.days
            > deposit.close_date.days)
}

pub open spec fn deposit_problem(deposit: DepositConfig, at: usize) -> Option<ConfigProblem> {
    if deposit.open_date.days > deposit.close_date.days {
        Some(ConfigProblem::InvalidDepositDates(at))
    } else if contribution_outside(deposit) {
        Some(ConfigProblem::InvalidDepositContributionDate(at))
    } else {
        None
    }
}

pub open spec fn has_key(pairs: Seq<(String, String)>, key: Seq<char>) -> bool {
    exists|i: int| 0 <= i < pairs.len() && (#[trigger] pairs[i]).0@ == key
}

/// Some symbol is remapped to a symbol that is remapped itself.
pub open spec fn remapping_recursive(pairs: Seq<(String, String)>) -> bool {
    exists|i: int| 0 <= i < pairs.len() && has_key(pairs, (#[trigger] pairs[i]).1@)
}

/// The symbols of the first `k` merges, each merge as the symbol that the
/// others merge into and then the others.
pub open spec fn merged_symbols(merges: Seq<(String, Vec<String>)>, k: int) -> Seq<Seq<char>>
    decreases k,
{
    if k <= 0 {
        Seq::empty()
    } else {
        merged_symbols(merges, k - 1).push(merges[k - 1].0@) + Seq::new(
            merges[k - 1].1@.len(),
            |j: int| merges[k - 1].1@[j]@,
        )
    }
}

pub open spec fn repeats(texts: Seq<Seq<char>>) -> bool {
    exists|i: int, j: int| 0 <= i < j < texts.len() && #[trigger] texts[i] == #[trigger] texts[j]
}

pub open spec fn supported_currency(currency: Seq<char>) -> bool {
    currency == "RUB"@ || currency == "USD"@
}

pub open spec fn name_taken(portfolios: Seq<PortfolioConfig>, at: int) -> bool {
    exists|j: int| 0 <= j < at && (#[trigger] portfolios[j]).name@ == portfolios[at].name@
}

pub open spec fn portfolio_problem(portfolios: Seq<PortfolioConfig>, at: usize) -> Option<
    ConfigProblem,
> {
    let portfolio = portfolios[at as int];
    if name_taken(portfolios, at as int) {
        Some(ConfigProblem::DuplicatePortfolioName(at))
    } else if portfolio.currency matches Some(currency) && !supported_currency(currency@) {
        Some(ConfigProblem::UnsupportedPortfolioCurrency(at))
    } else if remapping_recursive(portfolio.symbol_remapping@) {
        Some(ConfigProblem::RecursiveSymbolRemapping(at))
    } else if repeats(
        merged_symbols(portfolio.merge_performance@, portfolio.merge_performance@.len() as int),
    ) {
        Some(ConfigProblem::DuplicatedMergedSymbol(at))
    } else {
        None
    }
}

/// The first problem among the deposits from `from` on.
pub open spec fn deposits_problem(deposits: Seq<DepositConfig>, from: int) -> Option<
    ConfigProblem,
>
    decreases deposits.len() - from,
{
    if from < 0 || from >= deposits.len() {
        None
    } else if deposit_problem(deposits[from], from as usize) is Some {
        deposit_problem(deposits[from], from as usize)
    } else {
        deposits_problem(deposits, from + 1)
    }
}

/// The first problem among the portfolios from `from` on.
pub open spec fn portfolios_problem(portfolios: Seq<PortfolioConfig>, from: int) -> Option<
    ConfigProblem,
>
    decreases portfolios.len() - from,
{
    if from < 0 || from >= portfolios.len() {
        None
    } else if portfolio_problem(portfolios, from as usize) is Some {
        portfolio_problem(portfolios, from as usize)
    } else {
        portfolios_problem(portfolios, from + 1)
    }
}

/// The first problem of the configuration: the deposits come before the
/// portfolios.
pub open spec fn first_problem(config: Config) -> Option<ConfigProblem> {
    if deposits_problem(config.deposits@, 0) is Some {
        deposits_problem(config.deposits@, 0)
    } else {
        portfolios_problem(config.portfolios@, 0)
    }
}

/// Checks the dates of a deposit.
pub fn check_deposit(deposit: &DepositConfig, at: usize) -> (problem: Option<ConfigProblem>)
    ensures
        problem == deposit_problem(*deposit, at),
{
    if deposit.open_date.days > deposit.close_date.days {
        return Some(ConfigProblem::InvalidDepositDates(at));
    }
    let n: usize = deposit.contributions.len();
    let mut i: usize = 0;
    while i < n
        invariant
            i <= n,
            n == deposit.contributions@.len(),
            deposit.open_date.days <= deposit.close_date.days,
            forall|j: int|
                0 <= j < i ==> !((#[trigger] deposit.contributions@[j]).0.days
                    < deposit.open_date.days || deposit.contributions@[j].0.days
                    > deposit.close_date.days),
        decreases n - i,
    {
        let date = deposit.contributions[i].0;
        if date.days < deposit.open_date.days || date.days > deposit.close_date.days {
            assert(deposit.contributions@[i as int].0 == date);
            return Some(ConfigProblem::InvalidDepositContributionDate(at));
        }
        i += 1;
    }
    None
}

/// Whether the key is the first part of one of the pairs.
pub fn is_key(pairs: &Vec<(String, String)>, key: &str) -> (r: bool)
    ensures
        r == has_key(pairs@, key@),
{
    let n: usize = pairs.len();
    let mut i: usize = 0;
    while i < n
        invariant
            i <= n,
            n == pairs@.len(),
            forall|j: int| 0 <= j < i ==> (#[trigger] pairs@[j]).0@ != key@,
        decreases n - i,
    {
        if same_text(pairs[i].0.as_str(), key) {
            return true;
        }
        i += 1;
    }
    false
}

/// Whether some symbol is remapped to a symbol that is remapped itself.
pub fn is_recursive(pairs: &Vec<(String, String)>) -> (r: bool)
    ensures
        r == remapping_recursive(pairs@),
{
    let n: usize = pairs.len();
    let mut i: usize = 0;
    while i < n
        invariant
            i <= n,
            n == pairs@.len(),
            forall|j: int| 0 <= j < i ==> !has_key(pairs@, (#[trigger] pairs@[j]).1@),
        decreases n - i,
    {
        if is_key(pairs, pairs[i].1.as_str()) {
            return true;
        }
        i += 1;
    }
    false
}

/// The symbols of the first `k` merges begin the symbols of any more of
/// them.
pub proof fn lemma_merged_prefix(merges: Seq<(String, Vec<String>)>, k: int, n: int)
    requires
        0 <= k <= n,
    ensures
        merged_symbols(merges, k).len() <= merged_symbols(merges, n).len(),
        merged_symbols(merges, n).take(merged_symbols(merges, k).len() as int) == merged_symbols(
            merges,
            k,
        ),
    decreases n - k,
{
    if k == n {
        assert(merged_symbols(merges, n).take(merged_symbols(merges, n).len() as int)
            =~= merged_symbols(merges, n));
    } else {
        lemma_merged_prefix(merges, k, n - 1);
        assert(merged_symbols(merges, n).take(merged_symbols(merges, k).len() as int)
            =~= merged_symbols(merges, n - 1).take(merged_symbols(merges, k).len() as int));
    }
}

/// Whether the performance of some symbol is merged more than once.
pub fn has_repeated_merge(merges: &Vec<(String, Vec<String>)>) -> (r: bool)
    ensures
        r == repeats(merged_symbols(merges@, merges@.len() as int)),
{
    let n: usize = merges.len();
    let ghost all = merged_symbols(merges@, n as int);
    let mut seen: Vec<String> = Vec::new();
    let mut i: usize = 0;
    while i < n
        invariant
            i <= n,
            n == merges@.len(),
            all == merged_symbols(merges@, n as int),
            distinct(seen@),
            seen@.len() == merged_symbols(merges@, i as int).len(),
            forall|j: int| 0 <= j < seen@.len() ==> (#[trigger] seen@[j])@ == all[j],
        decreases n - i,
    {
        let ghost base = merged_symbols(merges@, i as int);
        let ghost group = merged_symbols(merges@, i as int + 1);
        proof {
            lemma_merged_prefix(merges@, i as int, n as int);
            lemma_merged_prefix(merges@, i as int + 1, n as int);
            assert(group.len() == base.len() + 1 + merges@[i as int].1@.len());
            assert forall|j: int| 0 <= j < group.len() implies group[j] == all[j] by {
                assert(all.take(group.len() as int)[j] == all[j]);
            }
            assert(group[base.len() as int] == merges@[i as int].0@);
        }
        if !insert(&mut seen, &merges[i].0) {
            proof {
                let at = choose|at: int|
                    0 <= at < base.len() && (#[trigger] seen@[at])@ == merges@[i as int].0@;
                assert(all[at] == all[base.len() as int]);
            }
            return true;
        }
        let others = &merges[i].1;
        let m: usize = others.len();
        let mut k: usize = 0;
        while k < m
            invariant
                k <= m,
                m == others@.len(),
                i < n,
                n == merges@.len(),
                *others == merges@[i as int].1,
                all == merged_symbols(merges@, n as int),
                base == merged_symbols(merges@, i as int),
                group == merged_symbols(merges@, i as int + 1),
                group.len() == base.len() + 1 + m,
                group.len() <= all.len(),
                forall|j: int| 0 <= j < group.len() ==> group[j] == all[j],
                distinct(seen@),
                seen@.len() == base.len() + 1 + k,
                forall|j: int| 0 <= j < seen@.len() ==> (#[trigger] seen@[j])@ == all[j],
            decreases m - k,
        {
            let ghost before = seen@;
            proof {
                assert(group[base.len() + 1 + k] == others@[k as int]@);
            }
            if !insert(&mut seen, &others[k]) {
                proof {
                    let at = choose|at: int|
                        0 <= at < before.len() && (#[trigger] before[at])@ == others@[k as int]@;
                    assert(all[at] == all[base.len() + 1 + k]);
                }
                return true;
            }
            k += 1;
        }
        i += 1;
    }
    proof {
        assert forall|a: int, b: int| 0 <= a < b < all.len() implies #[trigger] all[a]
            != #[trigger] all[b] by {
            assert(seen@[a]@ == all[a]);
            assert(seen@[b]@ == all[b]);
        }
    }
    false
}

/// Checks one portfolio against those before it.
pub fn check_portfolio(portfolios: &Vec<PortfolioConfig>, at: usize, names: &Vec<String>) -> (problem:
    Option<ConfigProblem>)
    requires
        at < portfolios@.len(),
        names@.len() == at,
        forall|j: int| 0 <= j < at ==> (#[trigger] names@[j])@ == portfolios@[j].name@,
    ensures
        problem == portfolio_problem(portfolios@, at),
{
    let portfolio = &portfolios[at];
    if contains(names, &portfolio.name) {
        proof {
            let j = choose|j: int| 0 <= j < names@.len() && (#[trigger] names@[j])@
                == portfolio.name@;
            assert(portfolios@[j].name@ == portfolios@[at as int].name@);
        }
        return Some(ConfigProblem::DuplicatePortfolioName(at));
    }
    proof {
        if name_taken(portfolios@, at as int) {
            let j = choose|j: int|
                0 <= j < at && (#[trigger] portfolios@[j]).name@ == portfolios@[at as int].name@;
            assert(names@[j]@ == portfolio.name@);
        }
    }
    match &portfolio.currency {
        Some(currency) => {
            if !same_text(currency.as_str(), "RUB") && !same_text(currency.as_str(), "USD") {
                return Some(ConfigProblem::UnsupportedPortfolioCurrency(at));
            }
        },
        None => {},
    }
    if is_recursive(&portfolio.symbol_remapping) {
        return Some(ConfigProblem::RecursiveSymbolRemapping(at));
    }
    if has_repeated_merge(&portfolio.merge_performance) {
        return Some(ConfigProblem::DuplicatedMergedSymbol(at));
    }
    None
}

impl Config {
    /// Checks the configuration and reports the first problem: deposits
    /// that close before they open or have contributions outside their
    /// term, then portfolios with a name used before, a currency other than
    /// RUB and USD, a symbol remapped to a remapped symbol, or a symbol
    /// whose performance is merged more than once.
    pub fn validate(&self) -> (result: Result<(), ConfigProblem>)
        ensures
            result == match first_problem(*self) {
                Some(problem) => Err::<(), ConfigProblem>(problem),
                None => Ok(()),
            },
    {
        let n: usize = self.deposits.len();
        let mut i: usize = 0;
        while i < n
            invariant
                i <= n,
                n == self.deposits@.len(),
                deposits_problem(self.deposits@, 0) == deposits_problem(self.deposits@, i as int),
            decreases n - i,
        {
            match check_deposit(&self.deposits[i], i) {
                Some(problem) => {
                    return Err(problem);
                },
                None => {},
            }
            i += 1;
        }
        let m: usize = self.portfolios.len();
        let mut names: Vec<String> = Vec::new();
        let mut k: usize = 0;
        while k < m
            invariant
                k <= m,
                m == self.portfolios@.len(),
                deposits_problem(self.deposits@, 0) is None,
                portfolios_problem(self.portfolios@, 0) == portfolios_problem(
                    self.portfolios@,
                    k as int,
                ),
                names@.len() == k,
                forall|j: int| 0 <= j < k ==> (#[trigger] names@[j])@ == self.portfolios@[j].name@,
            decreases m - k,
        {
            match check_portfolio(&self.portfolios, k, &names) {
                Some(problem) => {
                    return Err(problem);
                },
                None => {},
            }
            names.push(self.portfolios[k].name.clone());
            k += 1;
        }
        Ok(())
    }
}

} // verus!
