//! The masscan command line: targets, ports, options, and how a run ends.
use vstd::prelude::*;
use core::marker::PhantomData;
use crate::text::{
    decimal, decimal_string, find_char, find_char_str, join, signed_decimal,
    signed_decimal_string, trim, trim_str,
};

verus! {

/// Why a masscan command could not be built or did not succeed.
#[derive(Debug)]
pub enum MasscanError {
    EmptyValue(&'static str),
    InvalidPortRange { start: u16, end: u16 },
    ArgumentContainsNul(String),
    NonZeroExit(i32),
    SpawnFailed(String),
    InvalidUtf8Output(String),
}

/// The text that describes an error to a person.
pub open spec fn error_message(e: MasscanError) -> Seq<char> {
    match e {
        MasscanError::EmptyValue(field) => field@ + " must not be empty"@,
        MasscanError::InvalidPortRange { start, end } => "invalid port range "@ + decimal(
            start as nat,
        ) + seq!['-'] + decimal(end as nat) + ": start must be <= end"@,
        MasscanError::ArgumentContainsNul(value) => "argument contains NUL byte: "@ + value@,
        MasscanError::NonZeroExit(code) => "masscan returned non-zero exit code: "@
            + signed_decimal(code as int)
            + ". If this is a permission error, retry under sudo"@,
        MasscanError::SpawnFailed(message) => "failed to spawn masscan subprocess: "@ + message@,
        MasscanError::InvalidUtf8Output(message) => "masscan produced non-UTF8 stdout: "@
            + message@,
    }
}

impl MasscanError {
    /// The text that describes this error to a person.
    pub fn message(&self) -> (r: String)
        ensures
            r@ == error_message(*self),
    {
        match self {
            MasscanError::EmptyValue(field) => {
                let mut s = (*field).to_owned();
                s.append(" must not be empty");
                s
            },
            MasscanError::InvalidPortRange { start, end } => {
                let mut s = "invalid port range ".to_owned();
                s.append(decimal_string(*start as u64).as_str());
                s.append("-");
                proof {
                    reveal_strlit("-");
                }
                s.append(decimal_string(*end as u64).as_str());
                s.append(": start must be <= end");
                s
            },
            MasscanError::ArgumentContainsNul(value) => {
                let mut s = "argument contains NUL byte: ".to_owned();
                s.append(value.as_str());
                s
            },
            MasscanError::NonZeroExit(code) => {
                let mut s = "masscan returned non-zero exit code: ".to_owned();
                s.append(signed_decimal_string(*code as i64).as_str());
                s.append(". If this is a permission error, retry under sudo");
                s
            },
            MasscanError::SpawnFailed(message) => {
                let mut s = "failed to spawn masscan subprocess: ".to_owned();
                s.append(message.as_str());
                s
            },
            MasscanError::InvalidUtf8Output(message) => {
                let mut s = "masscan produced non-UTF8 stdout: ".to_owned();
                s.append(message.as_str());
                s
            },
        }
    }
}

/// A port number that is not zero.
#[derive(Clone, Copy, Debug, PartialEq, Eq)]
pub struct NonZeroU16 {
    value: u16,
}

impl View for NonZeroU16 {
    type V = u16;

    closed spec fn view(&self) -> u16 {
        self.value
    }
}

impl NonZeroU16 {
    #[verifier::type_invariant]
    spec fn nonzero(self) -> bool {
        self.value != 0
    }

    /// `Some` of `n` when `n` is not zero.
    pub fn new(n: u16) -> (r: Option<NonZeroU16>)
        ensures
            r is Some <==> n != 0,
            r matches Some(x) ==> x@ == n,
    {
        if n == 0 {
            None
        } else {
            Some(NonZeroU16 { value: n })
        }
    }

    /// The number, which is never zero.
    pub fn get(&self) -> (r: u16)
        ensures
            r == self@,
            r != 0,
    {
        proof {
            use_type_invariant(self);
        }
        self.value
    }
}

/// A packet rate that is not zero.
#[derive(Clone, Copy, Debug, PartialEq, Eq)]
pub struct NonZeroU64 {
    value: u64,
}

impl View for NonZeroU64 {
    type V = u64;

    closed spec fn view(&self) -> u64 {
        self.value
    }
}

impl NonZeroU64 {
    #[verifier::type_invariant]
    spec fn nonzero(self) -> bool {
        self.value != 0
    }

    /// `Some` of `n` when `n` is not zero.
    pub fn new(n: u64) -> (r: Option<NonZeroU64>)
        ensures
            r is Some <==> n != 0,
            r matches Some(x) ==> x@ == n,
    {
        if n == 0 {
            None
        } else {
            Some(NonZeroU64 { value: n })
        }
    }

    /// The number, which is never zero.
    pub fn get(&self) -> (r: u64)
        ensures
            r == self@,
            r != 0,
    {
        proof {
            use_type_invariant(self);
        }
        self.value
    }
}

/// A list with at least one element.
#[derive(Clone, Debug)]
pub struct NonEmptyList<T> {
    first: T,
    rest: Vec<T>,
}

impl<T> View for NonEmptyList<T> {
    type V = Seq<T>;

    closed spec fn view(&self) -> Seq<T> {
        seq![self.first] + self.rest@
    }
}

impl<T> NonEmptyList<T> {
    /// The list that holds `first` alone.
    pub fn new(first: T) -> (r: Self)
        ensures
            r@ == seq![first],
    {
        NonEmptyList { first, rest: Vec::new() }
    }

    /// The list with `value` added at the end.
    pub fn push(self, value: T) -> (r: Self)
        ensures
            r@ == self@.push(value),
    {
        let mut list = self;
        list.rest.push(value);
        assert(list@ =~= self@.push(value));
        list
    }

    /// The first element.
    pub fn first(&self) -> (r: &T)
        ensures
            *r == self@[0],
    {
        &self.first
    }

    /// The elements after the first, in order.
    pub fn rest(&self) -> (r: &Vec<T>)
        ensures
            r@ == self@.drop_first(),
    {
        assert((seq![self.first] + self.rest@).drop_first() =~= self.rest@);
        &self.rest
    }

    /// Every list has at least one element.
    pub proof fn lemma_nonempty(&self)
        ensures
            self@.len() >= 1,
    {
    }
}


/// A scan target: text that is not blank.
#[derive(Debug)]
pub struct TargetSpec(String);

impl Clone for TargetSpec {
    fn clone(&self) -> (r: Self)
        ensures
            r@ == self@,
    {
        proof {
            use_type_invariant(self);
        }
        TargetSpec(self.0.clone())
    }
}

impl View for TargetSpec {
    type V = Seq<char>;

    closed spec fn view(&self) -> Seq<char> {
        self.0@
    }
}

impl TargetSpec {
    #[verifier::type_invariant]
    spec fn not_blank(self) -> bool {
        trim(self.0@).len() > 0
    }

    /// The target `value`; refused when it is blank.
    pub fn new(value: &str) -> (r: Result<TargetSpec, MasscanError>)
        ensures
            trim(value@).len() == 0 ==> r == Err::<TargetSpec, MasscanError>(
                MasscanError::EmptyValue("target"),
            ),
            trim(value@).len() > 0 ==> (r matches Ok(t) && t@ == value@),
    {
        if trim_str(value).is_empty() {
            return Err(MasscanError::EmptyValue("target"));
        }
        Ok(TargetSpec(value.to_owned()))
    }

    /// The target's text, which is never blank.
    pub fn as_str(&self) -> (r: &str)
        ensures
            r@ == self@,
            trim(r@).len() > 0,
    {
        proof {
            use_type_invariant(self);
        }
        self.0.as_str()
    }
}

/// What a port specification stands for: one port, or the ports from a
/// first to a last.
pub enum PortItem {
    Single(u16),
    Range(u16, u16),
}

/// How masscan's `--ports` writes one port item.
pub open spec fn port_fragment(p: PortItem) -> Seq<char> {
    match p {
        PortItem::Single(port) => decimal(port as nat),
        PortItem::Range(start, end) => decimal(start as nat) + seq!['-'] + decimal(end as nat),
    }
}

/// The `--ports` value for a list of port items: their fragments joined
/// with commas.
pub open spec fn ports_value(items: Seq<PortItem>) -> Seq<char> {
    join(items.map_values(|p: PortItem| port_fragment(p)), seq![','])
}

/// One port, or a range of ports.
#[derive(Clone, Copy, Debug)]
pub enum PortSpec {
    Single(NonZeroU16),
    Range { start: NonZeroU16, end: NonZeroU16 },
}

impl View for PortSpec {
    type V = PortItem;

    open spec fn view(&self) -> PortItem {
        match self {
            PortSpec::Single(port) => PortItem::Single(port@),
            PortSpec::Range { start, end } => PortItem::Range(start@, end@),
        }
    }
}

impl PortSpec {
    /// The single port `port`.
    pub fn single(port: NonZeroU16) -> (r: Self)
        ensures
            r@ == PortItem::Single(port@),
    {
        PortSpec::Single(port)
    }

    /// The ports from `start` to `end`; refused when `start` is above `end`.
    pub fn range(start: NonZeroU16, end: NonZeroU16) -> (r: Result<Self, MasscanError>)
        ensures
            start@ > end@ ==> r == Err::<PortSpec, MasscanError>(
                MasscanError::InvalidPortRange { start: start@, end: end@ },
            ),
            start@ <= end@ ==> (r matches Ok(p) && p@ == PortItem::Range(start@, end@)),
    {
        if start.get() > end.get() {
            return Err(MasscanError::InvalidPortRange { start: start.get(), end: end.get() });
        }
        Ok(PortSpec::Range { start, end })
    }

    /// How masscan's `--ports` writes this item.
    pub fn as_cli_fragment(&self) -> (r: String)
        ensures
            r@ == port_fragment(self@),
    {
        match self {
            PortSpec::Single(port) => decimal_string(port.get() as u64),
            PortSpec::Range { start, end } => {
                let mut s = decimal_string(start.get() as u64);
                s.append("-");
                proof {
                    reveal_strlit("-");
                }
                s.append(decimal_string(end.get() as u64).as_str());
                s
            },
        }
    }
}

/// The ports to scan: one or more port items.
#[derive(Clone, Debug)]
pub struct PortSelection(NonEmptyList<PortSpec>);

impl View for PortSelection {
    type V = Seq<PortItem>;

    closed spec fn view(&self) -> Seq<PortItem> {
        self.0@.map_values(|p: PortSpec| p@)
    }
}

impl PortSelection {
    /// The selection that holds `first` alone.
    pub fn new(first: PortSpec) -> (r: Self)
        ensures
            r@ == seq![first@],
    {
        let r = PortSelection(NonEmptyList::new(first));
        assert(r@ =~= seq![first@]);
        r
    }

    /// The selection with `item` added at the end.
    pub fn push(self, item: PortSpec) -> (r: Self)
        ensures
            r@ == self@.push(item@),
    {
        let ghost before = self@;
        let r = PortSelection(self.0.push(item));
        assert(r@ =~= before.push(item@));
        r
    }

    /// Every selection holds at least one port item.
    pub proof fn lemma_nonempty(&self)
        ensures
            self@.len() >= 1,
    {
        self.0.lemma_nonempty();
    }

    /// The `--ports` value: each item's fragment, joined with commas.
    pub fn as_cli_value(&self) -> (r: String)
        ensures
            r@ == ports_value(self@),
    {
        let ghost frags = self@.map_values(|p: PortItem| port_fragment(p));
        let rest = self.0.rest();
        let mut s = self.0.first().as_cli_fragment();
        proof {
            self.0.lemma_nonempty();
            assert(frags.take(1) =~= seq![frags[0]]);
        }
        let mut i: usize = 0;
        while i < rest.len()
            invariant
                rest@ == self.0@.drop_first(),
                frags == self@.map_values(|p: PortItem| port_fragment(p)),
                self@ == self.0@.map_values(|p: PortSpec| p@),
                frags.len() == rest@.len() + 1,
                i <= rest.len(),
                s@ == join(frags.take(i + 1), seq![',']),
            decreases rest.len() - i,
        {
            let piece = rest[i].as_cli_fragment();
            s.append(",");
            proof {
                reveal_strlit(",");
            }
            s.append(piece.as_str());
            proof {
                assert(frags.take(i + 2).drop_last() =~= frags.take(i + 1));
                assert(frags[i + 1] == port_fragment(rest@[i as int]@));
            }
            i = i + 1;
        }
        assert(frags.take(i + 1) =~= frags);
        s
    }
}


/// Marks a command that is neither a scan nor a read-back yet.
#[derive(Debug)]
pub struct ModeUnset;

/// Marks a command that scans targets.
#[derive(Debug)]
pub struct ScanMode;

/// Marks a command that reads back a saved scan.
#[derive(Debug)]
pub struct ReadScanMode;

/// The command line of one masscan run, program name first.
#[derive(Debug)]
pub struct MasscanCommand<Mode> {
    args: Vec<String>,
    _mode: PhantomData<Mode>,
}

/// The arguments of a command line, each as its characters.
pub open spec fn arg_texts(args: Seq<String>) -> Seq<Seq<char>> {
    args.map_values(|a: String| a@)
}

/// The targets' texts, in order.
pub open spec fn target_texts(targets: Seq<TargetSpec>) -> Seq<Seq<char>> {
    targets.map_values(|t: TargetSpec| t@)
}

/// The command line of a scan of `targets` on `ports`.
pub open spec fn scan_args(targets: Seq<TargetSpec>, ports: Seq<PortItem>) -> Seq<Seq<char>> {
    seq!["masscan"@, "--ports"@, ports_value(ports)] + target_texts(targets)
}

/// Whether `s` holds a NUL character, which no C string can carry.
pub open spec fn has_nul(s: Seq<char>) -> bool {
    find_char(s, '\0') is Some
}

/// Whether no argument holds a NUL character.
pub open spec fn no_nul_args(args: Seq<Seq<char>>) -> bool {
    forall|i: int| 0 <= i < args.len() ==> !has_nul(#[trigger] args[i])
}

/// The position of the first argument that holds a NUL character.
pub open spec fn first_nul_arg(args: Seq<Seq<char>>) -> Option<int>
    decreases args.len(),
{
    if args.len() == 0 {
        None
    } else if has_nul(args[0]) {
        Some(0)
    } else {
        match first_nul_arg(args.drop_first()) {
            Some(k) => Some(k + 1),
            None => None,
        }
    }
}

proof fn lemma_first_nul_arg(args: Seq<Seq<char>>, k: int)
    requires
        0 <= k <= args.len(),
        forall|j: int| 0 <= j < k ==> !has_nul(#[trigger] args[j]),
        k == args.len() || has_nul(args[k]),
    ensures
        first_nul_arg(args) == (if k == args.len() { None } else { Some(k) }),
    decreases k,
{
    if k > 0 {
        let t = args.drop_first();
        assert forall|j: int| 0 <= j < k - 1 implies !has_nul(#[trigger] t[j]) by {
            assert(t[j] == args[j + 1]);
        }
        assert(!has_nul(args[0]));
        lemma_first_nul_arg(t, k - 1);
    }
}

/// How a run that ended with `code` turns out: success only for zero.
pub open spec fn exit_outcome(code: i32) -> Result<(), MasscanError> {
    if code == 0 {
        Ok(())
    } else {
        Err(MasscanError::NonZeroExit(code))
    }
}

impl<Mode> View for MasscanCommand<Mode> {
    type V = Seq<Seq<char>>;

    closed spec fn view(&self) -> Seq<Seq<char>> {
        arg_texts(self.args@)
    }
}

impl Default for MasscanCommand<ModeUnset> {
    fn default() -> (r: Self)
        ensures
            r@ == seq!["masscan"@],
    {
        Self::new()
    }
}

impl MasscanCommand<ModeUnset> {
    /// The bare command line: the program name alone.
    pub fn new() -> (r: Self)
        ensures
            r@ == seq!["masscan"@],
    {
        let args = vec!["masscan".to_owned()];
        let r = MasscanCommand { args, _mode: PhantomData };
        assert(r@ =~= seq!["masscan"@]);
        r
    }

    /// The command line that scans `targets` on `ports`: the port list after
    /// `--ports`, then each target in order.
    pub fn scan(targets: NonEmptyList<TargetSpec>, ports: PortSelection) -> (r: MasscanCommand<
        ScanMode,
    >)
        ensures
            r@ == scan_args(targets@, ports@),
    {
        let value = ports.as_cli_value();
        let mut command = Self::new().option("--ports", value.as_str());
        let ghost head = command@;
        command = command.arg(targets.first().as_str());
        let rest = targets.rest();
        let mut i: usize = 0;
        proof {
            targets.lemma_nonempty();
            assert(target_texts(targets@).take(1) =~= seq![targets@[0]@]);
        }
        while i < rest.len()
            invariant
                rest@ == targets@.drop_first(),
                targets@.len() == rest@.len() + 1,
                i <= rest.len(),
                command@ == head + target_texts(targets@).take(i + 1),
            decreases rest.len() - i,
        {
            command = command.arg(rest[i].as_str());
            proof {
                assert(target_texts(targets@).take(i + 2) =~= target_texts(targets@).take(i + 1).push(
                    rest@[i as int]@,
                ));
            }
            i = i + 1;
        }
        proof {
            assert(target_texts(targets@).take(i + 1) =~= target_texts(targets@));
            assert(command@ =~= scan_args(targets@, ports@));
        }
        command.into_mode()
    }

    /// The command line that reads back the scan saved at `path`; refused
    /// when `path` is blank.
    pub fn readscan(path: &str) -> (r: Result<MasscanCommand<ReadScanMode>, MasscanError>)
        ensures
            trim(path@).len() == 0 ==> r == Err::<MasscanCommand<ReadScanMode>, MasscanError>(
                MasscanError::EmptyValue("readscan path"),
            ),
            trim(path@).len() > 0 ==> (r matches Ok(c) && c@ == seq![
                "masscan"@,
                "--readscan"@,
                path@,
            ]),
    {
        if trim_str(path).is_empty() {
            return Err(MasscanError::EmptyValue("readscan path"));
        }
        let command = Self::new().option("--readscan", path);
        Ok(command.into_mode())
    }
}

impl<Mode> MasscanCommand<Mode> {
    #[verifier::type_invariant]
    spec fn names_program(self) -> bool {
        self.args@.len() >= 1 && self.args@[0]@ == "masscan"@
    }

    /// Every command line starts with the program name.
    pub fn program(&self) -> (r: &str)
        ensures
            self@.len() >= 1,
            self@[0] == "masscan"@,
            r@ == "masscan"@,
    {
        proof {
            use_type_invariant(self);
        }
        self.args[0].as_str()
    }

    /// The same command line, marked for another mode.
    fn into_mode<Other>(self) -> (r: MasscanCommand<Other>)
        ensures
            r@ == self@,
    {
        proof {
            use_type_invariant(&self);
        }
        MasscanCommand { args: self.args, _mode: PhantomData }
    }

    /// The command line's arguments, program name first.
    pub fn args(&self) -> (r: &Vec<String>)
        ensures
            arg_texts(r@) == self@,
    {
        &self.args
    }

    /// The command line with `value` added at the end.
    pub fn arg(self, value: &str) -> (r: Self)
        ensures
            r@ == self@.push(value@),
    {
        proof {
            use_type_invariant(&self);
        }
        let mut args = self.args;
        args.push(value.to_owned());
        let command = MasscanCommand { args, _mode: PhantomData };
        assert(command@ =~= self@.push(value@));
        command
    }

    /// The command line with the flag `name` added at the end.
    pub fn flag(self, name: &str) -> (r: Self)
        ensures
            r@ == self@.push(name@),
    {
        self.arg(name)
    }

    /// The command line with `name` and then `value` added at the end.
    pub fn option(self, name: &str, value: &str) -> (r: Self)
        ensures
            r@ == self@.push(name@).push(value@),
    {
        proof {
            use_type_invariant(&self);
        }
        let mut args = self.args;
        args.push(name.to_owned());
        args.push(value.to_owned());
        let command = MasscanCommand { args, _mode: PhantomData };
        assert(command@ =~= self@.push(name@).push(value@));
        command
    }

    /// The command line with `--rate` and the rate in decimal added.
    pub fn rate(self, packets_per_second: NonZeroU64) -> (r: Self)
        ensures
            r@ == self@.push("--rate"@).push(decimal(packets_per_second@ as nat)),
    {
        let value = decimal_string(packets_per_second.get());
        self.option("--rate", value.as_str())
    }

    /// The command line with `--max-retries` and the count in decimal added.
    pub fn max_retries(self, retries: u32) -> (r: Self)
        ensures
            r@ == self@.push("--max-retries"@).push(decimal(retries as nat)),
    {
        let value = decimal_string(retries as u64);
        self.option("--max-retries", value.as_str())
    }

    /// The command line with `--wait` and the seconds in decimal added.
    pub fn wait(self, seconds: u32) -> (r: Self)
        ensures
            r@ == self@.push("--wait"@).push(decimal(seconds as nat)),
    {
        let value = decimal_string(seconds as u64);
        self.option("--wait", value.as_str())
    }

    /// The command line with `-oD` and `path` added, so that masscan writes
    /// its results to `path` as NDJSON; refused when `path` is blank.
    pub fn output_ndjson(self, path: &str) -> (r: Result<Self, MasscanError>)
        ensures
            trim(path@).len() == 0 ==> r == Err::<Self, MasscanError>(
                MasscanError::EmptyValue("output path"),
            ),
            trim(path@).len() > 0 ==> (r matches Ok(c) && c@ == self@.push("-oD"@).push(path@)),
    {
        if trim_str(path).is_empty() {
            return Err(MasscanError::EmptyValue("output path"));
        }
        Ok(self.option("-oD", path))
    }

    /// Runs the command line through `run_masscan`, which hands it to
    /// masscan and gives back masscan's exit code. An argument that holds a
    /// NUL character cannot be handed over: the first such argument is
    /// reported and `run_masscan` is not called.
    fn invoke_inner<F: FnOnce(&Vec<String>) -> i32>(&self, run_masscan: F) -> (r: Result<
        (),
        MasscanError,
    >)
        requires
            forall|argv: &Vec<String>|
                no_nul_args(arg_texts(argv@)) ==> call_requires(run_masscan, (argv,)),
        ensures
            match first_nul_arg(self@) {
                Some(k) => r matches Err(MasscanError::ArgumentContainsNul(a)) && a@ == self@[k],
                None => exists|argv: &Vec<String>, code: i32|
                    {
                        &&& arg_texts(argv@) == self@
                        &&& no_nul_args(self@)
                        &&& call_ensures(run_masscan, (argv,), code)
                        &&& r == exit_outcome(code)
                    },
            },
    {
        let n = self.args.len();
        let mut i: usize = 0;
        while i < n
            invariant
                n == self@.len(),
                i <= n,
                self@ == arg_texts(self.args@),
                forall|j: int| 0 <= j < i ==> !has_nul(#[trigger] self@[j]),
            decreases n - i,
        {
            let arg = &self.args[i];
            if find_char_str(arg.as_str(), '\0').is_some() {
                proof {
                    lemma_first_nul_arg(self@, i as int);
                }
                return Err(MasscanError::ArgumentContainsNul(arg.clone()));
            }
            i = i + 1;
        }
        proof {
            lemma_first_nul_arg(self@, n as int);
        }
        let code = run_masscan(&self.args);
        if code != 0 {
            Err(MasscanError::NonZeroExit(code))
        } else {
            Ok(())
        }
    }

    /// Runs the command line as a child process through `spawn`, which is
    /// handed the program name and the whole argument list and gives back
    /// how the process ended, or why it could not start; the result is
    /// masscan's standard output.
    pub fn invoke_subprocess_capture_stdout<F: FnOnce(&str, &Vec<String>) -> Result<
        ProcessOutput,
        String,
    >>(&self, spawn: F) -> (r: Result<String, MasscanError>)
        requires
            forall|program: &str, argv: &Vec<String>| call_requires(spawn, (program, argv)),
        ensures
            exists|program: &str, argv: &Vec<String>, out: Result<ProcessOutput, String>|
                {
                    &&& program@ == "masscan"@
                    &&& arg_texts(argv@) == self@
                    &&& call_ensures(spawn, (program, argv), out)
                    &&& r == capture_outcome(out)
                },
    {
        let program = self.program();
        let out = spawn(program, &self.args);
        match out {
            Err(message) => Err(MasscanError::SpawnFailed(message)),
            Ok(output) => {
                if !output.success {
                    let code = match output.code {
                        Some(c) => c,
                        None => -1,
                    };
                    Err(MasscanError::NonZeroExit(code))
                } else {
                    match output.stdout {
                        Ok(text) => Ok(text),
                        Err(message) => Err(MasscanError::InvalidUtf8Output(message)),
                    }
                }
            },
        }
    }
}

impl MasscanCommand<ScanMode> {
    /// Runs the scan through `run_masscan`, which hands the command line to
    /// masscan and gives back masscan's exit code. An argument that holds a
    /// NUL character cannot be handed over: the first such argument is
    /// reported and `run_masscan` is not called, so it is only ever handed
    /// argument lists without NUL. Any exit code but zero is an error.
    pub fn invoke<F: FnOnce(&Vec<String>) -> i32>(&self, run_masscan: F) -> (r: Result<
        (),
        MasscanError,
    >)
        requires
            forall|argv: &Vec<String>|
                no_nul_args(arg_texts(argv@)) ==> call_requires(run_masscan, (argv,)),
        ensures
            match first_nul_arg(self@) {
                Some(k) => r matches Err(MasscanError::ArgumentContainsNul(a)) && a@ == self@[k],
                None => exists|argv: &Vec<String>, code: i32|
                    {
                        &&& arg_texts(argv@) == self@
                        &&& no_nul_args(self@)
                        &&& call_ensures(run_masscan, (argv,), code)
                        &&& r == exit_outcome(code)
                    },
            },
    {
        self.invoke_inner(run_masscan)
    }
}

impl MasscanCommand<ReadScanMode> {
    /// Runs the read-back through `run_masscan`, with the same outcomes as
    /// a scan's `invoke`.
    pub fn invoke<F: FnOnce(&Vec<String>) -> i32>(&self, run_masscan: F) -> (r: Result<
        (),
        MasscanError,
    >)
        requires
            forall|argv: &Vec<String>|
                no_nul_args(arg_texts(argv@)) ==> call_requires(run_masscan, (argv,)),
        ensures
            match first_nul_arg(self@) {
                Some(k) => r matches Err(MasscanError::ArgumentContainsNul(a)) && a@ == self@[k],
                None => exists|argv: &Vec<String>, code: i32|
                    {
                        &&& arg_texts(argv@) == self@
                        &&& no_nul_args(self@)
                        &&& call_ensures(run_masscan, (argv,), code)
                        &&& r == exit_outcome(code)
                    },
            },
    {
        self.invoke_inner(run_masscan)
    }
}

/// How a child process ended: whether it succeeded, its exit code when it
/// has one, and its standard output as text, or why that output is not
/// UTF-8.
pub struct ProcessOutput {
    pub success: bool,
    pub code: Option<i32>,
    pub stdout: Result<String, String>,
}

/// What a captured run gives: the output when the process started,
/// succeeded and wrote UTF-8; else the first of these that failed.
pub open spec fn capture_outcome(out: Result<ProcessOutput, String>) -> Result<String, MasscanError> {
    match out {
        Err(message) => Err(MasscanError::SpawnFailed(message)),
        Ok(o) => if !o.success {
            Err(
                MasscanError::NonZeroExit(
                    match o.code {
                        Some(c) => c,
                        None => -1i32,
                    },
                ),
            )
        } else {
            match o.stdout {
                Ok(text) => Ok(text),
                Err(message) => Err(MasscanError::InvalidUtf8Output(message)),
            }
        },
    }
}


/// A scan's command line is the program name, `--ports` and the port
/// list, and then every target, each exactly once and in the given order:
/// argument `3 + i` is the text of target `i`, and there is no other.
pub proof fn lemma_scan_args_layout(targets: Seq<TargetSpec>, ports: Seq<PortItem>)
    ensures
        scan_args(targets, ports).len() == 3 + targets.len(),
        scan_args(targets, ports)[0] == "masscan"@,
        scan_args(targets, ports)[1] == "--ports"@,
        scan_args(targets, ports)[2] == ports_value(ports),
        forall|i: int|
            0 <= i < targets.len() ==> #[trigger] scan_args(targets, ports)[3 + i] == targets[i]@,
{
}

/// A run ends well exactly when masscan exits with zero; any other exit
/// code is reported as it is.
pub proof fn lemma_exit_outcome(code: i32)
    ensures
        exit_outcome(code) is Ok <==> code == 0,
        code != 0 ==> exit_outcome(code) == Err::<(), MasscanError>(MasscanError::NonZeroExit(code)),
{
}

/// A captured run gives output only when the process started, succeeded
/// and wrote UTF-8, and then it gives exactly that output. A process that
/// could not start is reported with its reason. A process that started but
/// did not succeed is always reported as a non-zero exit with its exit code,
/// or -1 when it has none, whatever it wrote.
pub proof fn lemma_capture_outcome(out: Result<ProcessOutput, String>)
    ensures
        capture_outcome(out) is Ok <==> (out matches Ok(o) && o.success && o.stdout is Ok),
        capture_outcome(out) matches Ok(text) ==> (out matches Ok(o) && o.stdout == Ok::<
            String,
            String,
        >(text)),
        out matches Err(m) ==> capture_outcome(out) == Err::<String, MasscanError>(
            MasscanError::SpawnFailed(m),
        ),
        out is Ok && !out->Ok_0.success ==> capture_outcome(out) == Err::<String, MasscanError>(
            MasscanError::NonZeroExit(
                match out->Ok_0.code {
                    Some(c) => c,
                    None => -1i32,
                },
            ),
        ),
        out is Ok && out->Ok_0.success && out->Ok_0.stdout is Err ==> capture_outcome(out)
            == Err::<String, MasscanError>(
            MasscanError::InvalidUtf8Output(out->Ok_0.stdout->Err_0),
        ),
{
}

} // verus!
