//! Command lines of `measure`, `gate`, `gate accept`, `spec probe` and
//! `trend append`: each flag of the shared set (see
//! [`CommonArgs::try_parse`]) or of the command's own, in order, later flags
//! overriding earlier ones.

use vstd::prelude::*;

use crate::invoke::{common_flag, opt_view, CommonArgs, CommonFlag, CommonView};
use crate::text::{copy_str, str_eq};

verus! {

/// A command line that cannot be run.
#[derive(Debug)]
pub enum ArgError {
    /// A flag given without the value it needs; the text says what it needs.
    MissingValue(&'static str),
    /// An argument none of the command's flags names.
    Unknown(String),
    /// A flag the command cannot run without was not given; the text says
    /// which.
    Required(&'static str),
}

/// An [`ArgError`] as plain values.
pub enum ArgErrorView {
    MissingValue(Seq<char>),
    Unknown(Seq<char>),
    Required(Seq<char>),
}

impl ArgError {
    pub open spec fn view_err(&self) -> ArgErrorView {
        match self {
            ArgError::MissingValue(m) => ArgErrorView::MissingValue(m@),
            ArgError::Unknown(a) => ArgErrorView::Unknown(a@),
            ArgError::Required(m) => ArgErrorView::Required(m@),
        }
    }
}

/// Strings as plain values.
pub open spec fn strs(v: Seq<String>) -> Seq<Seq<char>> {
    v.map_values(|s: String| s@)
}

/// The argument after position `i`, if there is one.
pub open spec fn next_arg(args: Seq<Seq<char>>, i: int) -> Option<Seq<char>> {
    if 0 <= i + 1 < args.len() {
        Some(args[i + 1])
    } else {
        None
    }
}

/// The shared flags after `flag` took `value` (a missing value clears the
/// slot).
pub open spec fn common_set(c: CommonView, flag: CommonFlag, value: Option<Seq<char>>) -> CommonView {
    match flag {
        CommonFlag::Pkg => CommonView { pkg: value, ..c },
        CommonFlag::Filter => CommonView { filter: value, ..c },
        CommonFlag::Backend => CommonView { backend: value, ..c },
        CommonFlag::Samples => CommonView { samples: value, ..c },
        CommonFlag::Features => CommonView { features: value, ..c },
        CommonFlag::Target => CommonView { target: value, ..c },
    }
}

/// Every shared flag unset.
pub open spec fn common_unset() -> CommonView {
    CommonView {
        pkg: None,
        filter: None,
        backend: None,
        samples: None,
        features: None,
        target: None,
        codegen_units: None,
    }
}

/// Reads the shared flag at `i`, if it is one, and the value after it.
fn take_common(common: &mut CommonArgs, args: &Vec<String>, i: usize) -> (taken: bool)
    requires
        i < args.len(),
    ensures
        taken == common_flag(args@[i as int]@) is Some,
        taken ==> final(common).view_all() == common_set(
            old(common).view_all(),
            common_flag(args@[i as int]@)->0,
            next_arg(strs(args@), i as int),
        ),
        !taken ==> final(common).view_all() == old(common).view_all(),
{
    let value = if i + 1 < args.len() {
        Some(&args[i + 1])
    } else {
        None
    };
    proof {
        if i + 1 < args@.len() {
            assert(strs(args@)[i as int + 1] == args@[i as int + 1]@);
        }
    }
    common.try_parse(args[i].as_str(), value)
}

/// The value after the flag at `i`, if there is one.
fn next_value(args: &Vec<String>, i: usize) -> (r: Option<String>)
    requires
        i < args.len(),
    ensures
        opt_view(r) == next_arg(strs(args@), i as int),
{
    if i + 1 < args.len() {
        assert(strs(args@)[i as int + 1] == args@[i as int + 1]@);
        Some(copy_str(args[i + 1].as_str()))
    } else {
        None
    }
}

/// Where reading goes on after the flag at `i` took the value after it.
fn skip_value(args: &Vec<String>, i: usize) -> (r: usize)
    requires
        i < args.len(),
    ensures
        r == if i + 2 <= args@.len() {
            i + 2
        } else {
            args@.len() as int
        },
{
    if i + 1 < args.len() {
        i + 2
    } else {
        args.len()
    }
}

// ---------------------------------------------------------------- gate

/// What a `gate` run compares against and how.
pub struct GateArgs {
    pub common: CommonArgs,
    pub baseline: String,
    pub ratchet: Option<String>,
    pub against_ref: Option<String>,
    pub deps: bool,
    pub allow_gone: bool,
    pub matrix: String,
    pub save_baseline: Option<String>,
    pub reuse_base: bool,
}

/// [`GateArgs`] as plain values.
pub struct GateView {
    pub common: CommonView,
    pub baseline: Seq<char>,
    pub ratchet: Option<Seq<char>>,
    pub against_ref: Option<Seq<char>>,
    pub deps: bool,
    pub allow_gone: bool,
    pub matrix: Seq<char>,
    pub save_baseline: Option<Seq<char>>,
    pub reuse_base: bool,
}

impl GateArgs {
    pub open spec fn view_all(&self) -> GateView {
        GateView {
            common: self.common.view_all(),
            baseline: self.baseline@,
            ratchet: opt_view(self.ratchet),
            against_ref: opt_view(self.against_ref),
            deps: self.deps,
            allow_gone: self.allow_gone,
            matrix: self.matrix@,
            save_baseline: opt_view(self.save_baseline),
            reuse_base: self.reuse_base,
        }
    }
}

/// The defaults: compare against the `base` baseline over the `default`
/// feature matrix, reusing a measured merge-base.
pub open spec fn gate_defaults() -> GateView {
    GateView {
        common: common_unset(),
        baseline: "base"@,
        ratchet: None,
        against_ref: None,
        deps: false,
        allow_gone: false,
        matrix: "default"@,
        save_baseline: None,
        reuse_base: true,
    }
}

/// Reading a `gate` command line from position `i` with `g` read so far.
pub open spec fn gate_parse(args: Seq<Seq<char>>, i: int, g: GateView) -> Result<
    GateView,
    ArgErrorView,
>
    decreases args.len() + 1 - i,
{
    if i < 0 || i >= args.len() {
        Ok(g)
    } else {
        let a = args[i];
        let v = next_arg(args, i);
        match common_flag(a) {
            Some(f) => gate_parse(args, i + 2, GateView { common: common_set(g.common, f, v), ..g }),
            None => if a == "--features-matrix"@ {
                match v {
                    Some(x) => gate_parse(args, i + 2, GateView { matrix: x, ..g }),
                    None => Err(
                        ArgErrorView::MissingValue(
                            "--features-matrix needs combos like \"default;full\""@,
                        ),
                    ),
                }
            } else if a == "--baseline"@ {
                match v {
                    Some(x) => gate_parse(args, i + 2, GateView { baseline: x, ..g }),
                    None => Err(ArgErrorView::MissingValue("--baseline needs a name"@)),
                }
            } else if a == "--ratchet"@ {
                match v {
                    Some(x) => gate_parse(args, i + 2, GateView { ratchet: Some(x), ..g }),
                    None => Err(ArgErrorView::MissingValue("--ratchet needs a baseline name"@)),
                }
            } else if a == "--against-ref"@ {
                match v {
                    Some(x) => gate_parse(args, i + 2, GateView { against_ref: Some(x), ..g }),
                    None => Err(ArgErrorView::MissingValue("--against-ref needs a git ref"@)),
                }
            } else if a == "--save-baseline"@ {
                match v {
                    Some(x) => gate_parse(args, i + 2, GateView { save_baseline: Some(x), ..g }),
                    None => Err(ArgErrorView::MissingValue("--save-baseline needs a name"@)),
                }
            } else if a == "--no-reuse-base"@ {
                gate_parse(args, i + 1, GateView { reuse_base: false, ..g })
            } else if a == "--deps"@ {
                gate_parse(args, i + 1, GateView { deps: true, ..g })
            } else if a == "--allow-gone"@ {
                gate_parse(args, i + 1, GateView { allow_gone: true, ..g })
            } else {
                Err(ArgErrorView::Unknown(a))
            },
        }
    }
}

proof fn lemma_gate_parse_past_end(args: Seq<Seq<char>>, i: int, g: GateView)
    requires
        i >= args.len(),
    ensures
        gate_parse(args, i, g) == Ok::<GateView, ArgErrorView>(g),
{
}

/// Reads a `gate` command line (after `gate` itself).
pub fn parse_gate_args(args: &Vec<String>) -> (r: Result<GateArgs, ArgError>)
    ensures
        match r {
            Ok(g) => gate_parse(strs(args@), 0, gate_defaults()) == Ok::<
                GateView,
                ArgErrorView,
            >(g.view_all()),
            Err(e) => gate_parse(strs(args@), 0, gate_defaults()) == Err::<
                GateView,
                ArgErrorView,
            >(e.view_err()),
        },
{
    let ghost a = strs(args@);
    let mut g = GateArgs {
        common: CommonArgs::new(),
        baseline: copy_str("base"),
        ratchet: None,
        against_ref: None,
        deps: false,
        allow_gone: false,
        matrix: copy_str("default"),
        save_baseline: None,
        reuse_base: true,
    };
    assert(g.view_all() == gate_defaults());
    let mut i: usize = 0;
    while i < args.len()
        invariant
            a == strs(args@),
            i <= args@.len(),
            gate_parse(a, 0, gate_defaults()) == gate_parse(a, i as int, g.view_all()),
        decreases args.len() - i,
    {
        let ghost g0 = g.view_all();
        assert(a[i as int] == args@[i as int]@);
        if take_common(&mut g.common, args, i) {
            let n = skip_value(args, i);
            proof {
                if n == args@.len() {
                    lemma_gate_parse_past_end(a, i + 2, g.view_all());
                }
            }
            i = n;
            continue;
        }
        let arg = args[i].as_str();
        if str_eq(arg, "--features-matrix") {
            match next_value(args, i) {
                Some(x) => g.matrix = x,
                None => {
                    return Err(
                        ArgError::MissingValue(
                            "--features-matrix needs combos like \"default;full\"",
                        ),
                    )
                },
            }
        } else if str_eq(arg, "--baseline") {
            match next_value(args, i) {
                Some(x) => g.baseline = x,
                None => return Err(ArgError::MissingValue("--baseline needs a name")),
            }
        } else if str_eq(arg, "--ratchet") {
            match next_value(args, i) {
                Some(x) => g.ratchet = Some(x),
                None => return Err(ArgError::MissingValue("--ratchet needs a baseline name")),
            }
        } else if str_eq(arg, "--against-ref") {
            match next_value(args, i) {
                Some(x) => g.against_ref = Some(x),
                None => return Err(ArgError::MissingValue("--against-ref needs a git ref")),
            }
        } else if str_eq(arg, "--save-baseline") {
            match next_value(args, i) {
                Some(x) => g.save_baseline = Some(x),
                None => return Err(ArgError::MissingValue("--save-baseline needs a name")),
            }
        } else if str_eq(arg, "--no-reuse-base") {
            g.reuse_base = false;
            i = i + 1;
            continue;
        } else if str_eq(arg, "--deps") {
            g.deps = true;
            i = i + 1;
            continue;
        } else if str_eq(arg, "--allow-gone") {
            g.allow_gone = true;
            i = i + 1;
            continue;
        } else {
            return Err(ArgError::Unknown(copy_str(arg)));
        }
        let n = skip_value(args, i);
        proof {
            if n == args@.len() {
                lemma_gate_parse_past_end(a, i + 2, g.view_all());
            }
        }
        i = n;
    }
    Ok(g)
}

// ---------------------------------------------------------------- gate accept

/// What `gate accept` compares and records.
pub struct AcceptArgs {
    pub common: CommonArgs,
    pub baseline: String,
    pub against_ref: Option<String>,
    pub matrix: String,
    pub justification: Option<String>,
    pub only: Vec<String>,
}

/// [`AcceptArgs`] as plain values.
pub struct AcceptView {
    pub common: CommonView,
    pub baseline: Seq<char>,
    pub against_ref: Option<Seq<char>>,
    pub matrix: Seq<char>,
    pub justification: Option<Seq<char>>,
    pub only: Seq<Seq<char>>,
}

impl AcceptArgs {
    pub open spec fn view_all(&self) -> AcceptView {
        AcceptView {
            common: self.common.view_all(),
            baseline: self.baseline@,
            against_ref: opt_view(self.against_ref),
            matrix: self.matrix@,
            justification: opt_view(self.justification),
            only: strs(self.only@),
        }
    }
}

/// The defaults: the `base` baseline, the `default` matrix, every failing
/// bench, and no justification yet.
pub open spec fn accept_defaults() -> AcceptView {
    AcceptView {
        common: common_unset(),
        baseline: "base"@,
        against_ref: None,
        matrix: "default"@,
        justification: None,
        only: Seq::empty(),
    }
}

/// Reading a `gate accept` command line from position `i`; each `--only`
/// adds one bench.
pub open spec fn accept_parse(args: Seq<Seq<char>>, i: int, g: AcceptView) -> Result<
    AcceptView,
    ArgErrorView,
>
    decreases args.len() + 1 - i,
{
    if i < 0 || i >= args.len() {
        Ok(g)
    } else {
        let a = args[i];
        let v = next_arg(args, i);
        match common_flag(a) {
            Some(f) => accept_parse(args, i + 2, AcceptView { common: common_set(g.common, f, v), ..g }),
            None => if a == "--baseline"@ {
                match v {
                    Some(x) => accept_parse(args, i + 2, AcceptView { baseline: x, ..g }),
                    None => Err(ArgErrorView::MissingValue("--baseline needs a name"@)),
                }
            } else if a == "--against-ref"@ {
                match v {
                    Some(x) => accept_parse(args, i + 2, AcceptView { against_ref: Some(x), ..g }),
                    None => Err(ArgErrorView::MissingValue("--against-ref needs a git ref"@)),
                }
            } else if a == "--features-matrix"@ {
                match v {
                    Some(x) => accept_parse(args, i + 2, AcceptView { matrix: x, ..g }),
                    None => Err(
                        ArgErrorView::MissingValue(
                            "--features-matrix needs combos like \"default;full\""@,
                        ),
                    ),
                }
            } else if a == "--justification"@ {
                match v {
                    Some(x) => accept_parse(args, i + 2, AcceptView { justification: Some(x), ..g }),
                    None => Err(ArgErrorView::MissingValue("--justification needs text"@)),
                }
            } else if a == "--only"@ {
                match v {
                    Some(x) => accept_parse(args, i + 2, AcceptView { only: g.only.push(x), ..g }),
                    None => Err(ArgErrorView::MissingValue("--only needs a bench id"@)),
                }
            } else {
                Err(ArgErrorView::Unknown(a))
            },
        }
    }
}

proof fn lemma_accept_parse_past_end(args: Seq<Seq<char>>, i: int, g: AcceptView)
    requires
        i >= args.len(),
    ensures
        accept_parse(args, i, g) == Ok::<AcceptView, ArgErrorView>(g),
{
}

/// Reads a `gate accept` command line (after `gate accept` itself).
pub fn parse_accept_args(args: &Vec<String>) -> (r: Result<AcceptArgs, ArgError>)
    ensures
        match r {
            Ok(g) => accept_parse(strs(args@), 0, accept_defaults()) == Ok::<
                AcceptView,
                ArgErrorView,
            >(g.view_all()),
            Err(e) => accept_parse(strs(args@), 0, accept_defaults()) == Err::<
                AcceptView,
                ArgErrorView,
            >(e.view_err()),
        },
{
    let ghost a = strs(args@);
    let mut g = AcceptArgs {
        common: CommonArgs::new(),
        baseline: copy_str("base"),
        against_ref: None,
        matrix: copy_str("default"),
        justification: None,
        only: Vec::new(),
    };
    assert(g.view_all().only =~= Seq::<Seq<char>>::empty());
    assert(g.view_all() == accept_defaults());
    let mut i: usize = 0;
    while i < args.len()
        invariant
            a == strs(args@),
            i <= args@.len(),
            accept_parse(a, 0, accept_defaults()) == accept_parse(a, i as int, g.view_all()),
        decreases args.len() - i,
    {
        assert(a[i as int] == args@[i as int]@);
        if take_common(&mut g.common, args, i) {
            let n = skip_value(args, i);
            proof {
                if n == args@.len() {
                    lemma_accept_parse_past_end(a, i + 2, g.view_all());
                }
            }
            i = n;
            continue;
        }
        let arg = args[i].as_str();
        if str_eq(arg, "--baseline") {
            match next_value(args, i) {
                Some(x) => g.baseline = x,
                None => return Err(ArgError::MissingValue("--baseline needs a name")),
            }
        } else if str_eq(arg, "--against-ref") {
            match next_value(args, i) {
                Some(x) => g.against_ref = Some(x),
                None => return Err(ArgError::MissingValue("--against-ref needs a git ref")),
            }
        } else if str_eq(arg, "--features-matrix") {
            match next_value(args, i) {
                Some(x) => g.matrix = x,
                None => {
                    return Err(
                        ArgError::MissingValue(
                            "--features-matrix needs combos like \"default;full\"",
                        ),
                    )
                },
            }
        } else if str_eq(arg, "--justification") {
            match next_value(args, i) {
                Some(x) => g.justification = Some(x),
                None => return Err(ArgError::MissingValue("--justification needs text")),
            }
        } else if str_eq(arg, "--only") {
            match next_value(args, i) {
                Some(x) => {
                    let ghost before = strs(g.only@);
                    let ghost xv = x@;
                    g.only.push(x);
                    assert(strs(g.only@) =~= before.push(xv));
                },
                None => return Err(ArgError::MissingValue("--only needs a bench id")),
            }
        } else {
            return Err(ArgError::Unknown(copy_str(arg)));
        }
        let n = skip_value(args, i);
        proof {
            if n == args@.len() {
                lemma_accept_parse_past_end(a, i + 2, g.view_all());
            }
        }
        i = n;
    }
    Ok(g)
}

// ---------------------------------------------------------------- measure

/// What a `measure` run records.
pub struct MeasureArgs {
    pub common: CommonArgs,
    pub save: Option<String>,
    pub matrix: String,
}

/// [`MeasureArgs`] as plain values.
pub struct MeasureView {
    pub common: CommonView,
    pub save: Option<Seq<char>>,
    pub matrix: Seq<char>,
}

impl MeasureArgs {
    pub open spec fn view_all(&self) -> MeasureView {
        MeasureView {
            common: self.common.view_all(),
            save: opt_view(self.save),
            matrix: self.matrix@,
        }
    }
}

/// The defaults: nothing saved, the `default` feature matrix.
pub open spec fn measure_defaults() -> MeasureView {
    MeasureView { common: common_unset(), save: None, matrix: "default"@ }
}

/// Reading a `measure` command line from position `i`.
pub open spec fn measure_parse(args: Seq<Seq<char>>, i: int, g: MeasureView) -> Result<
    MeasureView,
    ArgErrorView,
>
    decreases args.len() + 1 - i,
{
    if i < 0 || i >= args.len() {
        Ok(g)
    } else {
        let a = args[i];
        let v = next_arg(args, i);
        match common_flag(a) {
            Some(f) => measure_parse(args, i + 2, MeasureView { common: common_set(g.common, f, v), ..g }),
            None => if a == "--save-baseline"@ {
                match v {
                    Some(x) => measure_parse(args, i + 2, MeasureView { save: Some(x), ..g }),
                    None => Err(ArgErrorView::MissingValue("--save-baseline needs a name"@)),
                }
            } else if a == "--features-matrix"@ {
                match v {
                    Some(x) => measure_parse(args, i + 2, MeasureView { matrix: x, ..g }),
                    None => Err(
                        ArgErrorView::MissingValue(
                            "--features-matrix needs combos like \"default;full\""@,
                        ),
                    ),
                }
            } else {
                Err(ArgErrorView::Unknown(a))
            },
        }
    }
}

proof fn lemma_measure_parse_past_end(args: Seq<Seq<char>>, i: int, g: MeasureView)
    requires
        i >= args.len(),
    ensures
        measure_parse(args, i, g) == Ok::<MeasureView, ArgErrorView>(g),
{
}

/// Reads a `measure` command line (after `measure` itself).
pub fn parse_measure_args(args: &Vec<String>) -> (r: Result<MeasureArgs, ArgError>)
    ensures
        match r {
            Ok(g) => measure_parse(strs(args@), 0, measure_defaults()) == Ok::<
                MeasureView,
                ArgErrorView,
            >(g.view_all()),
            Err(e) => measure_parse(strs(args@), 0, measure_defaults()) == Err::<
                MeasureView,
                ArgErrorView,
            >(e.view_err()),
        },
{
    let ghost a = strs(args@);
    let mut g = MeasureArgs { common: CommonArgs::new(), save: None, matrix: copy_str("default") };
    assert(g.view_all() == measure_defaults());
    let mut i: usize = 0;
    while i < args.len()
        invariant
            a == strs(args@),
            i <= args@.len(),
            measure_parse(a, 0, measure_defaults()) == measure_parse(a, i as int, g.view_all()),
        decreases args.len() - i,
    {
        assert(a[i as int] == args@[i as int]@);
        if take_common(&mut g.common, args, i) {
            let n = skip_value(args, i);
            proof {
                if n == args@.len() {
                    lemma_measure_parse_past_end(a, i + 2, g.view_all());
                }
            }
            i = n;
            continue;
        }
        let arg = args[i].as_str();
        if str_eq(arg, "--save-baseline") {
            match next_value(args, i) {
                Some(x) => g.save = Some(x),
                None => return Err(ArgError::MissingValue("--save-baseline needs a name")),
            }
        } else if str_eq(arg, "--features-matrix") {
            match next_value(args, i) {
                Some(x) => g.matrix = x,
                None => {
                    return Err(
                        ArgError::MissingValue(
                            "--features-matrix needs combos like \"default;full\"",
                        ),
                    )
                },
            }
        } else {
            return Err(ArgError::Unknown(copy_str(arg)));
        }
        let n = skip_value(args, i);
        proof {
            if n == args@.len() {
                lemma_measure_parse_past_end(a, i + 2, g.view_all());
            }
        }
        i = n;
    }
    Ok(g)
}

// ---------------------------------------------------------------- spec probe

/// What a `spec probe` run probes and whether it accepts.
pub struct ProbeArgs {
    pub common: CommonArgs,
    pub accept: bool,
    pub accept_passing: bool,
    pub allow_gone: bool,
    pub base_url: Option<String>,
    /// Only probes whose name contains this run.
    pub filter: Option<String>,
}

/// [`ProbeArgs`] as plain values.
pub struct ProbeView {
    pub common: CommonView,
    pub accept: bool,
    pub accept_passing: bool,
    pub allow_gone: bool,
    pub base_url: Option<Seq<char>>,
    pub filter: Option<Seq<char>>,
}

impl ProbeArgs {
    pub open spec fn view_all(&self) -> ProbeView {
        ProbeView {
            common: self.common.view_all(),
            accept: self.accept,
            accept_passing: self.accept_passing,
            allow_gone: self.allow_gone,
            base_url: opt_view(self.base_url),
            filter: opt_view(self.filter),
        }
    }
}

/// The defaults: check only, launching the package's own server.
pub open spec fn probe_defaults() -> ProbeView {
    ProbeView {
        common: common_unset(),
        accept: false,
        accept_passing: false,
        allow_gone: false,
        base_url: None,
        filter: None,
    }
}

/// Reading a `spec probe` command line from position `i`. The command's
/// own flags come first, so its `--filter` (probe names) shadows the shared
/// one (bench ids).
pub open spec fn probe_parse(args: Seq<Seq<char>>, i: int, g: ProbeView) -> Result<
    ProbeView,
    ArgErrorView,
>
    decreases args.len() + 1 - i,
{
    if i < 0 || i >= args.len() {
        Ok(g)
    } else {
        let a = args[i];
        let v = next_arg(args, i);
        if a == "--accept"@ {
            probe_parse(args, i + 1, ProbeView { accept: true, ..g })
        } else if a == "--accept-passing"@ {
            probe_parse(args, i + 1, ProbeView { accept_passing: true, ..g })
        } else if a == "--allow-gone"@ {
            probe_parse(args, i + 1, ProbeView { allow_gone: true, ..g })
        } else if a == "--base-url"@ {
            match v {
                Some(x) => probe_parse(args, i + 2, ProbeView { base_url: Some(x), ..g }),
                None => Err(ArgErrorView::MissingValue("--base-url needs a URL"@)),
            }
        } else if a == "--filter"@ {
            match v {
                Some(x) => probe_parse(args, i + 2, ProbeView { filter: Some(x), ..g }),
                None => Err(ArgErrorView::MissingValue("--filter needs a substring"@)),
            }
        } else {
            match common_flag(a) {
                Some(f) => probe_parse(args, i + 2, ProbeView { common: common_set(g.common, f, v), ..g }),
                None => Err(ArgErrorView::Unknown(a)),
            }
        }
    }
}

/// A whole `spec probe` command line: read as [`probe_parse`] says, and
/// refused without a package to probe.
pub open spec fn probe_command(args: Seq<Seq<char>>) -> Result<ProbeView, ArgErrorView> {
    match probe_parse(args, 0, probe_defaults()) {
        Ok(p) => if p.common.pkg is None {
            Err(ArgErrorView::Required("spec probe requires -p PKG"@))
        } else {
            Ok(p)
        },
        Err(e) => Err(e),
    }
}

proof fn lemma_probe_parse_past_end(args: Seq<Seq<char>>, i: int, g: ProbeView)
    requires
        i >= args.len(),
    ensures
        probe_parse(args, i, g) == Ok::<ProbeView, ArgErrorView>(g),
{
}

/// Reads a `spec probe` command line (after `spec probe` itself).
pub fn parse_probe_args(args: &Vec<String>) -> (r: Result<ProbeArgs, ArgError>)
    ensures
        match r {
            Ok(g) => probe_command(strs(args@)) == Ok::<ProbeView, ArgErrorView>(g.view_all()),
            Err(e) => probe_command(strs(args@)) == Err::<ProbeView, ArgErrorView>(e.view_err()),
        },
{
    let ghost a = strs(args@);
    let mut g = ProbeArgs {
        common: CommonArgs::new(),
        accept: false,
        accept_passing: false,
        allow_gone: false,
        base_url: None,
        filter: None,
    };
    assert(g.view_all() == probe_defaults());
    let mut i: usize = 0;
    while i < args.len()
        invariant
            a == strs(args@),
            i <= args@.len(),
            probe_parse(a, 0, probe_defaults()) == probe_parse(a, i as int, g.view_all()),
        decreases args.len() - i,
    {
        assert(a[i as int] == args@[i as int]@);
        let arg = args[i].as_str();
        if str_eq(arg, "--accept") {
            g.accept = true;
            i = i + 1;
        } else if str_eq(arg, "--accept-passing") {
            g.accept_passing = true;
            i = i + 1;
        } else if str_eq(arg, "--allow-gone") {
            g.allow_gone = true;
            i = i + 1;
        } else if str_eq(arg, "--base-url") {
            match next_value(args, i) {
                Some(x) => g.base_url = Some(x),
                None => return Err(ArgError::MissingValue("--base-url needs a URL")),
            }
            let n = skip_value(args, i);
            proof {
                if n == args@.len() {
                    lemma_probe_parse_past_end(a, i + 2, g.view_all());
                }
            }
            i = n;
        } else if str_eq(arg, "--filter") {
            match next_value(args, i) {
                Some(x) => g.filter = Some(x),
                None => return Err(ArgError::MissingValue("--filter needs a substring")),
            }
            let n = skip_value(args, i);
            proof {
                if n == args@.len() {
                    lemma_probe_parse_past_end(a, i + 2, g.view_all());
                }
            }
            i = n;
        } else if take_common(&mut g.common, args, i) {
            let n = skip_value(args, i);
            proof {
                if n == args@.len() {
                    lemma_probe_parse_past_end(a, i + 2, g.view_all());
                }
            }
            i = n;
        } else {
            return Err(ArgError::Unknown(copy_str(arg)));
        }
    }
    if g.common.pkg.is_none() {
        return Err(ArgError::Required("spec probe requires -p PKG"));
    }
    Ok(g)
}


// ---------------------------------------------------------------- trend append

/// What a `trend append` run measures, or which saved baseline it reads.
pub struct TrendArgs {
    pub common: CommonArgs,
    /// Read this saved baseline instead of measuring afresh.
    pub from_baseline: Option<String>,
}

/// [`TrendArgs`] as plain values.
pub struct TrendView {
    pub common: CommonView,
    pub from_baseline: Option<Seq<char>>,
}

impl TrendArgs {
    pub open spec fn view_all(&self) -> TrendView {
        TrendView { common: self.common.view_all(), from_baseline: opt_view(self.from_baseline) }
    }
}

/// Reading a `trend append` command line from position `i`: the shared
/// flags first, then `--from-baseline NAME`.
pub open spec fn trend_parse(args: Seq<Seq<char>>, i: int, g: TrendView) -> Result<
    TrendView,
    ArgErrorView,
>
    decreases args.len() + 1 - i,
{
    if i < 0 || i >= args.len() {
        Ok(g)
    } else {
        let a = args[i];
        let v = next_arg(args, i);
        match common_flag(a) {
            Some(f) => trend_parse(args, i + 2, TrendView { common: common_set(g.common, f, v), ..g }),
            None => if a == "--from-baseline"@ {
                match v {
                    Some(x) => trend_parse(args, i + 2, TrendView { from_baseline: Some(x), ..g }),
                    None => Err(ArgErrorView::MissingValue("--from-baseline needs a name"@)),
                }
            } else {
                Err(ArgErrorView::Unknown(a))
            },
        }
    }
}

proof fn lemma_trend_parse_past_end(args: Seq<Seq<char>>, i: int, g: TrendView)
    requires
        i >= args.len(),
    ensures
        trend_parse(args, i, g) == Ok::<TrendView, ArgErrorView>(g),
{
}

/// Reads a `trend append` command line (after `trend append` itself).
pub fn parse_trend_args(args: &Vec<String>) -> (r: Result<TrendArgs, ArgError>)
    ensures
        match r {
            Ok(g) => trend_parse(strs(args@), 0, TrendView { common: common_unset(), from_baseline: None })
                == Ok::<TrendView, ArgErrorView>(g.view_all()),
            Err(e) => trend_parse(strs(args@), 0, TrendView { common: common_unset(), from_baseline: None })
                == Err::<TrendView, ArgErrorView>(e.view_err()),
        },
{
    let ghost a = strs(args@);
    let mut g = TrendArgs { common: CommonArgs::new(), from_baseline: None };
    let mut i: usize = 0;
    while i < args.len()
        invariant
            a == strs(args@),
            i <= args@.len(),
            trend_parse(a, 0, TrendView { common: common_unset(), from_baseline: None }) == trend_parse(
                a,
                i as int,
                g.view_all(),
            ),
        decreases args.len() - i,
    {
        assert(a[i as int] == args@[i as int]@);
        let arg = args[i].as_str();
        if take_common(&mut g.common, args, i) {
        } else if str_eq(arg, "--from-baseline") {
            match next_value(args, i) {
                Some(x) => g.from_baseline = Some(x),
                None => return Err(ArgError::MissingValue("--from-baseline needs a name")),
            }
        } else {
            return Err(ArgError::Unknown(copy_str(arg)));
        }
        let n = skip_value(args, i);
        proof {
            if n == args@.len() {
                lemma_trend_parse_past_end(a, i + 2, g.view_all());
            }
        }
        i = n;
    }
    Ok(g)
}

} // verus!
