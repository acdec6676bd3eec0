//! What a run is configured with: its intervals, the memory threshold and
//! the flags that each solver is started with.
use crate::text::strings_view;
use vstd::prelude::*;
use vstd::string::StringExecFns;

verus! {

/// A share of the memory, as a fraction.
#[derive(Debug, Clone, Copy, PartialEq, Eq, Structural)]
pub struct MemoryThreshold {
    pub numerator: u64,
    pub denominator: u64,
}

/// `used` out of `total` is more than the share `threshold`.
pub open spec fn over_threshold(used: u64, total: u64, threshold: MemoryThreshold) -> bool {
    used * threshold.denominator > total * threshold.numerator
}

/// The product of two 64-bit numbers fits in 128 bits.
pub proof fn lemma_product_fits(a: u64, b: u64)
    ensures
        a * b <= u128::MAX,
{
    assert(a * b <= 0xffff_ffff_ffff_ffff * 0xffff_ffff_ffff_ffff) by (nonlinear_arith)
        requires
            0 <= a <= 0xffff_ffff_ffff_ffff,
            0 <= b <= 0xffff_ffff_ffff_ffff,
    ;
}

/// Whether `used` out of `total` is more than the share `threshold`.
pub fn is_over_threshold(used: u64, total: u64, threshold: MemoryThreshold) -> (b: bool)
    ensures
        b == over_threshold(used, total, threshold),
{
    proof {
        lemma_product_fits(used, threshold.denominator);
        lemma_product_fits(total, threshold.numerator);
    }
    let left: u128 = used as u128 * threshold.denominator as u128;
    let right: u128 = total as u128 * threshold.numerator as u128;
    left > right
}

/// The flags that one solver is started with.
#[derive(Debug, Clone, PartialEq, Eq)]
pub struct SolverArgs {
    pub solver: String,
    pub args: Vec<String>,
}

/// The model of [`SolverArgs`].
pub struct SolverArgsView {
    pub solver: Seq<char>,
    pub args: Seq<Seq<char>>,
}

impl View for SolverArgs {
    type V = SolverArgsView;

    open spec fn view(&self) -> SolverArgsView {
        SolverArgsView { solver: self.solver@, args: strings_view(self.args@) }
    }
}

/// The configuration of a run. The intervals are in seconds.
#[derive(Debug, Clone, PartialEq, Eq)]
pub struct Config {
    /// How long the static portfolio runs before the next one is applied.
    pub static_runtime: u64,
    /// How long the features may take.
    pub feature_timeout: u64,
    /// How often the portfolio is applied again.
    pub restart_interval: u64,
    /// How often the memory is looked at.
    pub memory_enforcer_interval: u64,
    /// The share of the memory above which solvers are stopped.
    pub memory_threshold: MemoryThreshold,
    /// The flags of each solver that has its own.
    pub solver_args: Vec<SolverArgs>,
}

/// The model of [`Config`].
pub struct ConfigView {
    pub static_runtime: u64,
    pub feature_timeout: u64,
    pub restart_interval: u64,
    pub memory_enforcer_interval: u64,
    pub memory_threshold: MemoryThreshold,
    pub solver_args: Seq<SolverArgsView>,
}

impl View for Config {
    type V = ConfigView;

    open spec fn view(&self) -> ConfigView {
        ConfigView {
            static_runtime: self.static_runtime,
            feature_timeout: self.feature_timeout,
            restart_interval: self.restart_interval,
            memory_enforcer_interval: self.memory_enforcer_interval,
            memory_threshold: self.memory_threshold,
            solver_args: self.solver_args@.map_values(|a: SolverArgs| a@),
        }
    }
}

/// The flags `first` and `second` for `solver`.
pub open spec fn two_flags(solver: Seq<char>, first: Seq<char>, second: Seq<char>) -> SolverArgsView {
    SolverArgsView { solver, args: seq![first, second] }
}

/// The configuration where nothing is said.
pub open spec fn default_config() -> ConfigView {
    ConfigView {
        static_runtime: 5,
        feature_timeout: 10,
        restart_interval: 7,
        memory_enforcer_interval: 3,
        memory_threshold: MemoryThreshold { numerator: 9, denominator: 10 },
        solver_args: seq![
            two_flags("gecode"@, "-i"@, "-f"@),
            two_flags("chuffed"@, "-i"@, "-f"@),
            two_flags("coinbc"@, "-i"@, "-f"@),
            two_flags("cp-sat"@, "-i"@, "-f"@),
            two_flags("yuck"@, "-i"@, "-f"@),
            two_flags("picat"@, "-a"@, "-f"@),
        ],
    }
}

/// The flags `first` and `second` for `solver`.
fn flags_for(solver: &str, first: &str, second: &str) -> (a: SolverArgs)
    ensures
        a@ == two_flags(solver@, first@, second@),
{
    let mut args: Vec<String> = Vec::new();
    args.push(String::from_str(first));
    args.push(String::from_str(second));
    assert(strings_view(args@) =~= seq![first@, second@]);
    SolverArgs { solver: String::from_str(solver), args }
}

/// The flags that `solver` has in `args`: those of the last entry for it.
pub open spec fn args_of(args: Seq<SolverArgsView>, solver: Seq<char>) -> Option<Seq<Seq<char>>>
    decreases args.len(),
{
    if args.len() == 0 {
        None
    } else if args.last().solver == solver {
        Some(args.last().args)
    } else {
        args_of(args.drop_last(), solver)
    }
}

impl Default for Config {
    fn default() -> (c: Self)
        ensures
            c@ == default_config(),
    {
        let mut solver_args: Vec<SolverArgs> = Vec::new();
        solver_args.push(flags_for("gecode", "-i", "-f"));
        solver_args.push(flags_for("chuffed", "-i", "-f"));
        solver_args.push(flags_for("coinbc", "-i", "-f"));
        solver_args.push(flags_for("cp-sat", "-i", "-f"));
        solver_args.push(flags_for("yuck", "-i", "-f"));
        solver_args.push(flags_for("picat", "-a", "-f"));
        let c = Config {
            static_runtime: 5,
            feature_timeout: 10,
            restart_interval: 7,
            memory_enforcer_interval: 3,
            memory_threshold: MemoryThreshold { numerator: 9, denominator: 10 },
            solver_args,
        };
        assert(c@.solver_args =~= default_config().solver_args);
        c
    }
}

impl Config {
    /// The flags that `solver` is started with, if it has its own.
    pub fn solver_args_for(&self, solver: &str) -> (r: Option<Vec<String>>)
        ensures
            match r {
                Some(a) => args_of(self@.solver_args, solver@) == Some(strings_view(a@)),
                None => args_of(self@.solver_args, solver@).is_none(),
            },
    {
        let ghost sv = self@.solver_args;
        let mut k: usize = self.solver_args.len();
        assert(sv.take(k as int) =~= sv);
        while k > 0
            invariant
                0 <= k <= self.solver_args.len(),
                sv == self@.solver_args,
                args_of(sv, solver@) == args_of(sv.take(k as int), solver@),
            decreases k,
        {
            assert(sv.take(k as int).drop_last() =~= sv.take(k - 1));
            assert(sv.take(k as int).last() == self.solver_args@[k - 1]@);
            if crate::text::str_eq(self.solver_args[k - 1].solver.as_str(), solver) {
                let entry = &self.solver_args[k - 1];
                let mut copy: Vec<String> = Vec::new();
                let mut i: usize = 0;
                while i < entry.args.len()
                    invariant
                        0 <= i <= entry.args.len(),
                        strings_view(copy@) == strings_view(entry.args@).take(i as int),
                    decreases entry.args.len() - i,
                {
                    let ghost before = strings_view(copy@);
                    let item = entry.args[i].clone();
                    copy.push(item);
                    assert(strings_view(copy@) =~= before.push(entry.args@[i as int]@));
                    assert(strings_view(entry.args@).take(i + 1) =~= strings_view(entry.args@).take(
                        i as int,
                    ).push(entry.args@[i as int]@));
                    i += 1;
                }
                assert(strings_view(entry.args@).take(i as int) =~= strings_view(entry.args@));
                return Some(copy);
            }
            k -= 1;
        }
        assert(sv.take(0) =~= Seq::<SolverArgsView>::empty());
        None
    }
}

} // verus!
