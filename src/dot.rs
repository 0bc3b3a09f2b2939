//! The task graph in DOT, for operators to inspect: one node per task,
//! labelled with its kind, package and toolchain, an edge from each package's preparation to its
//! tasks and from every task to the root; tasks skipped because their
//! package could not be prepared are dashed.
use vstd::prelude::*;
use vstd::string::StringSliceAdditionalSpecFns;
use crate::graph::{Task, TaskKind, TaskState, TasksGraph};
use crate::results::TestResult;

verus! {

/// Decimal digits of `n`, most significant first.
pub open spec fn digits(n: nat) -> Seq<u8>
    decreases n,
{
    if n < 10 {
        seq![(48 + n) as u8]
    } else {
        digits(n / 10).push((48 + n % 10) as u8)
    }
}

pub open spec fn kind_label(k: TaskKind) -> &'static str {
    match k {
        TaskKind::Prepare => "prepare",
        TaskKind::BuildAndTest => "build-and-test",
        TaskKind::BuildOnly => "build-only",
        TaskKind::Lint => "lint",
        TaskKind::Root => "root",
    }
}

pub open spec fn skipped(x: Task) -> bool {
    x.state == TaskState::Failed(TestResult::PrepareFailed)
}

/// The task's package and toolchain, as far as its kind has them.
pub open spec fn identity(x: Task) -> Seq<u8> {
    match x.kind {
        TaskKind::Root => Seq::empty(),
        TaskKind::Prepare => "(".spec_bytes() + digits(x.krate as nat) + ")".spec_bytes(),
        _ => "(".spec_bytes() + digits(x.krate as nat) + ", ".spec_bytes() + digits(x.toolchain as nat)
            + ")".spec_bytes(),
    }
}

pub open spec fn node_line(i: nat, x: Task) -> Seq<u8> {
    digits(i) + " [label=\"".spec_bytes() + kind_label(x.kind).spec_bytes() + identity(x) + (if skipped(x) {
        "\", style=dashed];\n".spec_bytes()
    } else {
        "\"];\n".spec_bytes()
    })
}

pub open spec fn edge_line(a: nat, b: nat) -> Seq<u8> {
    digits(a) + " -> ".spec_bytes() + digits(b) + ";\n".spec_bytes()
}

/// The lines of task `i` of `g`, whose root is last.
pub open spec fn block(g: Seq<Task>, i: int) -> Seq<u8> {
    let root = (g.len() - 1) as nat;
    if i == root {
        node_line(i as nat, g[i])
    } else if g[i].kind == TaskKind::Prepare {
        node_line(i as nat, g[i]) + edge_line(i as nat, root)
    } else {
        node_line(i as nat, g[i]) + edge_line(g[i].prep as nat, i as nat) + edge_line(i as nat, root)
    }
}

/// The lines of the first `m` tasks.
pub open spec fn body(g: Seq<Task>, m: int) -> Seq<u8>
    decreases m,
{
    if m <= 0 {
        Seq::empty()
    } else {
        body(g, m - 1) + block(g, m - 1)
    }
}

pub open spec fn dot(g: Seq<Task>) -> Seq<u8> {
    "digraph {\n".spec_bytes() + body(g, g.len() as int) + "}\n".spec_bytes()
}

fn push_str(out: &mut Vec<u8>, s: &str)
    ensures
        final(out)@ == old(out)@ + s.spec_bytes(),
{
    let b = s.as_bytes();
    let mut i: usize = 0;
    while i < b.len()
        invariant
            i <= b@.len(),
            b@ == s.spec_bytes(),
            out@ == old(out)@ + b@.subrange(0, i as int),
        decreases b@.len() - i,
    {
        out.push(b[i]);
        assert(b@.subrange(0, i + 1) =~= b@.subrange(0, i as int).push(b@[i as int]));
        i = i + 1;
    }
    assert(b@.subrange(0, b@.len() as int) =~= b@);
}

fn push_decimal(out: &mut Vec<u8>, n: u128)
    ensures
        final(out)@ == old(out)@ + digits(n as nat),
    decreases n,
{
    if n >= 10 {
        push_decimal(out, n / 10);
    }
    out.push((48 + n % 10) as u8);
    assert(out@ =~= old(out)@ + digits(n as nat));
}

fn label_of(k: TaskKind) -> (r: &'static str)
    ensures
        r == kind_label(k),
{
    match k {
        TaskKind::Prepare => "prepare",
        TaskKind::BuildAndTest => "build-and-test",
        TaskKind::BuildOnly => "build-only",
        TaskKind::Lint => "lint",
        TaskKind::Root => "root",
    }
}

fn push_node(out: &mut Vec<u8>, i: usize, x: Task)
    ensures
        final(out)@ == old(out)@ + node_line(i as nat, x),
{
    push_decimal(out, i as u128);
    push_str(out, " [label=\"");
    push_str(out, label_of(x.kind));
    match x.kind {
        TaskKind::Root => {},
        TaskKind::Prepare => {
            push_str(out, "(");
            push_decimal(out, x.krate as u128);
            push_str(out, ")");
        },
        _ => {
            push_str(out, "(");
            push_decimal(out, x.krate as u128);
            push_str(out, ", ");
            push_decimal(out, x.toolchain as u128);
            push_str(out, ")");
        },
    }
    if x.state == TaskState::Failed(TestResult::PrepareFailed) {
        push_str(out, "\", style=dashed];\n");
    } else {
        push_str(out, "\"];\n");
    }
    assert(out@ =~= old(out)@ + node_line(i as nat, x));
}

fn push_edge(out: &mut Vec<u8>, a: usize, b: usize)
    ensures
        final(out)@ == old(out)@ + edge_line(a as nat, b as nat),
{
    push_decimal(out, a as u128);
    push_str(out, " -> ");
    push_decimal(out, b as u128);
    push_str(out, ";\n");
    assert(out@ =~= old(out)@ + edge_line(a as nat, b as nat));
}

impl TasksGraph {
    /// The graph in DOT.
    pub fn generate_dot(&self) -> (r: Vec<u8>)
        requires
            self.wf(),
        ensures
            r@ == dot(self@),
    {
        let n = self.len();
        let root = n - 1;
        let mut out: Vec<u8> = Vec::new();
        push_str(&mut out, "digraph {\n");
        let mut i: usize = 0;
        while i < n
            invariant
                n == self@.len(),
                root == n - 1,
                i <= n,
                out@ == "digraph {\n".spec_bytes() + body(self@, i as int),
            decreases n - i,
        {
            let ghost before = out@;
            let x = self.task(i);
            push_node(&mut out, i, x);
            if i != root {
                if x.kind != TaskKind::Prepare {
                    push_edge(&mut out, x.prep, i);
                }
                push_edge(&mut out, i, root);
            }
            assert(out@ =~= before + block(self@, i as int));
            assert(body(self@, i + 1) == body(self@, i as int) + block(self@, i as int));
            assert(out@ =~= "digraph {\n".spec_bytes() + body(self@, i + 1));
            i = i + 1;
        }
        push_str(&mut out, "}\n");
        out
    }
}

} // verus!
