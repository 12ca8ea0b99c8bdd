//! Services and the registry: named, ordered groups of same-kind
//! instances, the per-cycle health-check sweep over them, and the
//! construction of the registry from a configuration.

use vstd::prelude::*;
use vstd::string::StringExecFns;
use crate::configuration::{ConstructionError, InitialProbe, ServiceConfiguration};
use crate::generic_200_ok;
use crate::instance::{Configuration, Instance, StateChange, Status};
use crate::node::{self, spec_node_step, NodeConnection};
use crate::state::Epoch;
use crate::status_response::StatusResponse;
use crate::text::{lemma_lex_transitive, lemma_lex_trichotomy, lex_lt, str_lex_lt};
use crate::writer::{spec_terminated, UpstreamSectionEntry};

verus! {

/// What the renderer reads of one instance: identity, current status, and
/// the verbatim output fragment.
pub struct InstanceView {
    pub name: Seq<char>,
    pub status: Status,
    pub output: Seq<char>,
}

/// The render-relevant view of a sequence of instances of one kind.
pub open spec fn spec_views_of<C: Configuration, S>(v: Seq<Instance<C, S>>) -> Seq<InstanceView> {
    v.map(
        |i: int, inst: Instance<C, S>|
            InstanceView {
                name: inst.instance_name@,
                status: inst.status,
                output: inst.configuration.spec_output(),
            },
    )
}

/// The ordered instances of one service: a closed set of backend kinds,
/// dispatched by tag.
pub enum Instances {
    Generic200Ok(Vec<Instance<generic_200_ok::Configuration, generic_200_ok::State>>),
    Node(Vec<Instance<node::Configuration, node::State>>),
}

/// Which connection records a prefix of a node instance list points at.
pub open spec fn spec_touched_prefix(
    v: Seq<Instance<node::Configuration, node::State>>,
    k: int,
    c: int,
) -> bool {
    exists|j: int| 0 <= j < k && v[j].state.connection == c
}

impl Instances {
    pub open spec fn view_seq(&self) -> Seq<InstanceView> {
        match self {
            Instances::Generic200Ok(v) => spec_views_of(v@),
            Instances::Node(v) => spec_views_of(v@),
        }
    }

    /// The shared connection a node instance points at; meaningless for the
    /// stateless kind, which shares nothing.
    pub open spec fn spec_conn(&self, i: int) -> int {
        match self {
            Instances::Generic200Ok(_) => 0,
            Instances::Node(v) => v[i].state.connection as int,
        }
    }

    /// Every node instance points at an existing connection record.
    pub open spec fn wf(&self, connections_len: nat) -> bool {
        match self {
            Instances::Generic200Ok(_) => true,
            Instances::Node(v) => forall|i: int|
                0 <= i < v.len() ==> (#[trigger] v[i].state.connection as nat) < connections_len,
        }
    }

    /// Whether any instance of this service points at connection `c`.
    pub open spec fn spec_touches(&self, c: int) -> bool {
        match self {
            Instances::Generic200Ok(_) => false,
            Instances::Node(v) => spec_touched_prefix(v@, v.len() as int, c),
        }
    }
}

/// The status instance `i` holds once this cycle's outcomes are applied:
/// the stateless kind takes its probe outcome directly, a node facade reads
/// the status its shared connection computes under the single-flight
/// protocol.
pub open spec fn spec_status_after(
    insts: Instances,
    conns: Seq<NodeConnection>,
    epoch: Epoch,
    generic_results: Seq<bool>,
    fetches: Seq<Option<StatusResponse>>,
    i: int,
) -> Status {
    match insts {
        Instances::Generic200Ok(_) => Status::spec_from_bool(generic_results[i]),
        Instances::Node(v) => spec_node_step(
            conns[v[i].state.connection as int],
            epoch,
            fetches[v[i].state.connection as int],
        ).status,
    }
}

impl Instances {
    /// Run this cycle's health checks over every instance, in order, and
    /// merge the per-instance change signals.  Probe outcomes arrive as
    /// plain values: one boolean per stateless instance, one optional
    /// status report per shared connection.
    pub fn healthcheck(
        &mut self,
        connections: &mut Vec<NodeConnection>,
        epoch: Epoch,
        generic_results: &Vec<bool>,
        fetches: &Vec<Option<StatusResponse>>,
    ) -> (r: StateChange)
        requires
            old(self).wf(old(connections)@.len() as nat),
            (*old(self)) is Generic200Ok ==> generic_results@.len() == old(self).view_seq().len(),
            fetches@.len() == old(connections)@.len(),
        ensures
            final(connections)@.len() == old(connections)@.len(),
            forall|c: int|
                0 <= c < old(connections)@.len() ==> final(connections)@[c] == (
                if old(self).spec_touches(c) {
                    spec_node_step(old(connections)@[c], epoch, fetches@[c])
                } else {
                    old(connections)@[c]
                }),
            (*final(self)) is Node <==> (*old(self)) is Node,
            final(self).view_seq().len() == old(self).view_seq().len(),
            forall|i: int|
                0 <= i < old(self).view_seq().len() ==> {
                    &&& (#[trigger] final(self).view_seq()[i]).name == old(self).view_seq()[i].name
                    &&& final(self).view_seq()[i].output == old(self).view_seq()[i].output
                    &&& final(self).spec_conn(i) == old(self).spec_conn(i)
                    &&& final(self).view_seq()[i].status == spec_status_after(
                        *old(self),
                        old(connections)@,
                        epoch,
                        generic_results@,
                        fetches@,
                        i,
                    )
                },
            final(self).wf(final(connections)@.len() as nat),
            (r == StateChange::Changed) <==> exists|i: int|
                0 <= i < old(self).view_seq().len() && (#[trigger] final(self).view_seq()[i]).status
                    != old(self).view_seq()[i].status,
    {
        let mut accumulated = StateChange::Unchanged;
        match self {
            Instances::Generic200Ok(instances) => {
                let ghost initial = instances@;
                let n = instances.len();
                let mut i: usize = 0;
                while i < n
                    invariant
                        i <= n,
                        n == instances@.len(),
                        instances@.len() == initial.len(),
                        generic_results@.len() == initial.len(),
                        forall|j: int| i <= j < initial.len() ==> instances@[j] == initial[j],
                        forall|j: int|
                            0 <= j < i ==> {
                                &&& (#[trigger] instances@[j]).instance_name
                                    == initial[j].instance_name
                                &&& instances@[j].configuration == initial[j].configuration
                                &&& instances@[j].state == initial[j].state
                                &&& instances@[j].status == Status::spec_from_bool(
                                    generic_results@[j],
                                )
                            },
                        (accumulated == StateChange::Changed) <==> exists|j: int|
                            0 <= j < i && (#[trigger] instances@[j]).status != initial[j].status,
                    decreases n - i,
                {
                    let ghost before = instances@;
                    let ghost acc_before = accumulated;
                    let probe = generic_results[i];
                    let inst = &mut instances[i];
                    let change = inst.healthcheck(epoch, probe);
                    accumulated = accumulated.combine(change);
                    proof {
                        if acc_before == StateChange::Changed {
                            let j0 = choose|j: int|
                                0 <= j < i && (#[trigger] before[j]).status != initial[j].status;
                            assert(instances@[j0].status != initial[j0].status);
                        }
                        if change == StateChange::Changed {
                            assert(instances@[i as int].status != initial[i as int].status);
                        }
                        if accumulated == StateChange::Unchanged {
                            assert forall|j: int|
                                0 <= j < i + 1 implies (#[trigger] instances@[j]).status
                                == initial[j].status by {
                                if j < i {
                                    assert(before[j].status == initial[j].status);
                                }
                            }
                        }
                    }
                    i = i + 1;
                }
                proof {
                    let ghost final_seq = instances@;
                    assert forall|j: int|
                        0 <= j < initial.len() implies (#[trigger] spec_views_of(final_seq)[j]).status
                        == final_seq[j].status && spec_views_of(initial)[j].status
                        == initial[j].status by {}
                    if accumulated == StateChange::Changed {
                        let j0 = choose|j: int|
                            0 <= j < initial.len() && (#[trigger] final_seq[j]).status
                                != initial[j].status;
                        assert(spec_views_of(final_seq)[j0].status != spec_views_of(
                            initial,
                        )[j0].status);
                    } else {
                        assert forall|j: int|
                            0 <= j < initial.len() implies (#[trigger] spec_views_of(
                            final_seq,
                        )[j]).status == spec_views_of(initial)[j].status by {
                            assert(final_seq[j].status == initial[j].status);
                        }
                    }
                }
            },
            Instances::Node(instances) => {
                let ghost initial = instances@;
                let ghost initial_conns = old(connections)@;
                let n = instances.len();
                let mut i: usize = 0;
                while i < n
                    invariant
                        i <= n,
                        n == instances@.len(),
                        instances@.len() == initial.len(),
                        connections@.len() == initial_conns.len(),
                        fetches@.len() == initial_conns.len(),
                        forall|j: int|
                            0 <= j < initial.len() ==> (#[trigger] initial[j].state.connection
                                as int) < initial_conns.len(),
                        forall|j: int| i <= j < initial.len() ==> instances@[j] == initial[j],
                        forall|c: int|
                            0 <= c < initial_conns.len() ==> connections@[c] == (
                            if spec_touched_prefix(initial, i as int, c) {
                                spec_node_step(initial_conns[c], epoch, fetches@[c])
                            } else {
                                initial_conns[c]
                            }),
                        forall|j: int|
                            0 <= j < i ==> {
                                &&& (#[trigger] instances@[j]).instance_name
                                    == initial[j].instance_name
                                &&& instances@[j].configuration == initial[j].configuration
                                &&& instances@[j].state == initial[j].state
                                &&& instances@[j].status == spec_node_step(
                                    initial_conns[initial[j].state.connection as int],
                                    epoch,
                                    fetches@[initial[j].state.connection as int],
                                ).status
                            },
                        (accumulated == StateChange::Changed) <==> exists|j: int|
                            0 <= j < i && (#[trigger] instances@[j]).status != initial[j].status,
                    decreases n - i,
                {
                    let ghost before = instances@;
                    let ghost acc_before = accumulated;
                    let ghost conns_before = connections@;
                    let ghost ci = initial[i as int].state.connection as int;
                    let inst = &mut instances[i];
                    let change = inst.healthcheck(connections, epoch, fetches);
                    proof {
                        if spec_touched_prefix(initial, i as int, ci) {
                            node::lemma_node_step_idempotent(
                                initial_conns[ci],
                                epoch,
                                fetches@[ci],
                                fetches@[ci],
                            );
                        }
                        assert(spec_touched_prefix(initial, i + 1, ci)) by {
                            assert(initial[i as int].state.connection == ci);
                        }
                        assert forall|c: int|
                            0 <= c < initial_conns.len() implies connections@[c] == (
                        if spec_touched_prefix(initial, i + 1, c) {
                            spec_node_step(initial_conns[c], epoch, fetches@[c])
                        } else {
                            initial_conns[c]
                        }) by {
                            if c != ci {
                                assert(spec_touched_prefix(initial, i + 1, c)
                                    == spec_touched_prefix(initial, i as int, c));
                            }
                        }
                    }
                    accumulated = accumulated.combine(change);
                    proof {
                        if acc_before == StateChange::Changed {
                            let j0 = choose|j: int|
                                0 <= j < i && (#[trigger] before[j]).status != initial[j].status;
                            assert(instances@[j0].status != initial[j0].status);
                        }
                        if change == StateChange::Changed {
                            assert(instances@[i as int].status != initial[i as int].status);
                        }
                        if accumulated == StateChange::Unchanged {
                            assert forall|j: int|
                                0 <= j < i + 1 implies (#[trigger] instances@[j]).status
                                == initial[j].status by {
                                if j < i {
                                    assert(before[j].status == initial[j].status);
                                }
                            }
                        }
                    }
                    i = i + 1;
                }
                proof {
                    let ghost final_seq = instances@;
                    assert forall|j: int|
                        0 <= j < initial.len() implies (#[trigger] spec_views_of(final_seq)[j]).status
                        == final_seq[j].status && spec_views_of(initial)[j].status
                        == initial[j].status by {}
                    if accumulated == StateChange::Changed {
                        let j0 = choose|j: int|
                            0 <= j < initial.len() && (#[trigger] final_seq[j]).status
                                != initial[j].status;
                        assert(spec_views_of(final_seq)[j0].status != spec_views_of(
                            initial,
                        )[j0].status);
                    } else {
                        assert forall|j: int|
                            0 <= j < initial.len() implies (#[trigger] spec_views_of(
                            final_seq,
                        )[j]).status == spec_views_of(initial)[j].status by {
                            assert(final_seq[j].status == initial[j].status);
                        }
                    }
                }
            },
        }
        accumulated
    }
}

/// A prefix line, or nothing when the prefix is empty.
pub open spec fn spec_prepend_part(prepend: Seq<char>) -> Seq<char> {
    if prepend.len() > 0 {
        spec_terminated(prepend)
    } else {
        Seq::empty()
    }
}

/// The entry lines of the first `k` instances: one line per enabled
/// instance, in order; disabled instances contribute nothing.
pub open spec fn spec_lines_upto(views: Seq<InstanceView>, k: int) -> Seq<char>
    decreases k,
{
    if k <= 0 {
        Seq::empty()
    } else {
        spec_lines_upto(views, k - 1) + (if views[k - 1].status is Enabled {
            spec_terminated(views[k - 1].output)
        } else {
            Seq::<char>::empty()
        })
    }
}

/// The entry lines of a whole instance list.
pub open spec fn spec_instance_lines(views: Seq<InstanceView>) -> Seq<char> {
    spec_lines_upto(views, views.len() as int)
}

/// How many of the first `k` instances are enabled.
pub open spec fn spec_enabled_upto(views: Seq<InstanceView>, k: int) -> int
    decreases k,
{
    if k <= 0 {
        0
    } else {
        spec_enabled_upto(views, k - 1) + (if views[k - 1].status is Enabled {
            1int
        } else {
            0int
        })
    }
}

/// How many instances of a list are enabled.
pub open spec fn spec_enabled_count(views: Seq<InstanceView>) -> int {
    spec_enabled_upto(views, views.len() as int)
}

/// The body of one upstream block: the global prefix line and the
/// service's own prefix line, each only if non-empty, then the enabled
/// instances' lines.
pub open spec fn spec_body_lines(
    global_prepend: Seq<char>,
    prepend: Seq<char>,
    views: Seq<InstanceView>,
) -> Seq<char> {
    spec_prepend_part(global_prepend) + spec_prepend_part(prepend) + spec_instance_lines(views)
}

/// Per-service result of a write: how many instances were written as
/// healthy.
pub struct WriteOutStatus {
    pub healthy_instances: usize,
}

fn write_out_instances<C: Configuration, S>(
    writer: &mut UpstreamSectionEntry,
    instances: &Vec<Instance<C, S>>,
    global_prepend: &str,
    prepend: &str,
) -> (r: WriteOutStatus)
    ensures
        final(writer).buffer@ == old(writer).buffer@ + spec_body_lines(
            global_prepend@,
            prepend@,
            spec_views_of(instances@),
        ),
        r.healthy_instances == spec_enabled_count(spec_views_of(instances@)),
{
    let ghost start = old(writer).buffer@;
    let ghost views = spec_views_of(instances@);
    if !global_prepend.is_empty() {
        writer.write_out_prepended(global_prepend);
    }
    if !prepend.is_empty() {
        writer.write_out_prepended(prepend);
    }
    let ghost with_prepends = start + spec_prepend_part(global_prepend@) + spec_prepend_part(
        prepend@,
    );
    proof {
        assert(writer.buffer@ =~= with_prepends);
    }
    let mut healthy_instances: usize = 0;
    let n = instances.len();
    let mut i: usize = 0;
    while i < n
        invariant
            i <= n,
            n == instances@.len(),
            views == spec_views_of(instances@),
            views.len() == n,
            healthy_instances <= i,
            healthy_instances == spec_enabled_upto(views, i as int),
            writer.buffer@ == with_prepends + spec_lines_upto(views, i as int),
        decreases n - i,
    {
        proof {
            assert(views[i as int].status == instances@[i as int].status && views[i as int].output
                == instances@[i as int].configuration.spec_output());
        }
        let inst = &instances[i];
        match inst.enabled() {
            Status::Enabled => {
                healthy_instances = healthy_instances + 1;
                writer.write_out_entry(inst.configuration().output());
            },
            Status::Disabled => {},
        }
        proof {
            assert(writer.buffer@ =~= with_prepends + spec_lines_upto(views, i + 1));
        }
        i = i + 1;
    }
    proof {
        assert(writer.buffer@ =~= start + spec_body_lines(global_prepend@, prepend@, views));
    }
    WriteOutStatus { healthy_instances }
}

impl Instances {
    /// Write this service's block body: the non-empty prefixes, then one
    /// line per currently enabled instance, in instance order.
    pub fn write_out(
        &self,
        writer: &mut UpstreamSectionEntry,
        global_prepend: &str,
        prepend: &str,
    ) -> (r: WriteOutStatus)
        ensures
            final(writer).buffer@ == old(writer).buffer@ + spec_body_lines(
                global_prepend@,
                prepend@,
                self.view_seq(),
            ),
            r.healthy_instances == spec_enabled_count(self.view_seq()),
    {
        match self {
            Instances::Generic200Ok(instances) => write_out_instances(
                writer,
                instances,
                global_prepend,
                prepend,
            ),
            Instances::Node(instances) => write_out_instances(
                writer,
                instances,
                global_prepend,
                prepend,
            ),
        }
    }
}

/// A named, ordered group of same-kind instances and a service-level text
/// prefix.
pub struct Service {
    pub prepend: String,
    pub instances: Instances,
}

impl Service {
    /// Run this cycle's health checks over the service's instances; see
    /// `Instances::healthcheck`.
    pub fn healthcheck(
        &mut self,
        connections: &mut Vec<NodeConnection>,
        epoch: Epoch,
        generic_results: &Vec<bool>,
        fetches: &Vec<Option<StatusResponse>>,
    ) -> (r: StateChange)
        requires
            old(self).instances.wf(old(connections)@.len() as nat),
            old(self).instances is Generic200Ok ==> generic_results@.len()
                == old(self).instances.view_seq().len(),
            fetches@.len() == old(connections)@.len(),
        ensures
            final(self).prepend == old(self).prepend,
            final(connections)@.len() == old(connections)@.len(),
            forall|c: int|
                0 <= c < old(connections)@.len() ==> final(connections)@[c] == (
                if old(self).instances.spec_touches(c) {
                    spec_node_step(old(connections)@[c], epoch, fetches@[c])
                } else {
                    old(connections)@[c]
                }),
            final(self).instances is Node <==> old(self).instances is Node,
            final(self).instances.view_seq().len() == old(self).instances.view_seq().len(),
            forall|i: int|
                0 <= i < old(self).instances.view_seq().len() ==> {
                    &&& (#[trigger] final(self).instances.view_seq()[i]).name == old(
                        self,
                    ).instances.view_seq()[i].name
                    &&& final(self).instances.view_seq()[i].output == old(
                        self,
                    ).instances.view_seq()[i].output
                    &&& final(self).instances.spec_conn(i) == old(self).instances.spec_conn(i)
                    &&& final(self).instances.view_seq()[i].status == spec_status_after(
                        old(self).instances,
                        old(connections)@,
                        epoch,
                        generic_results@,
                        fetches@,
                        i,
                    )
                },
            final(self).instances.wf(final(connections)@.len() as nat),
            (r == StateChange::Changed) <==> exists|i: int|
                0 <= i < old(self).instances.view_seq().len()
                    && (#[trigger] final(self).instances.view_seq()[i]).status
                    != old(self).instances.view_seq()[i].status,
    {
        self.instances.healthcheck(connections, epoch, generic_results, fetches)
    }

    /// Write this service's block body; see `Instances::write_out`.
    pub fn write_out(&self, writer: &mut UpstreamSectionEntry, global_prepend: &str) -> (r:
        WriteOutStatus)
        ensures
            final(writer).buffer@ == old(writer).buffer@ + spec_body_lines(
                global_prepend@,
                self.prepend@,
                self.instances.view_seq(),
            ),
            r.healthy_instances == spec_enabled_count(self.instances.view_seq()),
    {
        self.instances.write_out(writer, global_prepend, self.prepend.as_str())
    }
}

/// One registry entry: a service under its unique name.
pub struct ServiceEntry {
    pub name: String,
    pub service: Service,
}

/// One upstream block: the opening token naming the pool, the block body,
/// and the closing token.
pub open spec fn spec_service_block(
    name: Seq<char>,
    global_prepend: Seq<char>,
    prepend: Seq<char>,
    views: Seq<InstanceView>,
) -> Seq<char> {
    "\nupstream "@ + name + " {\n"@ + spec_body_lines(global_prepend, prepend, views) + "}\n"@
}

/// The blocks of the first `k` registry entries, in registry order.
pub open spec fn spec_render_upto(
    entries: Seq<ServiceEntry>,
    global_prepend: Seq<char>,
    k: int,
) -> Seq<char>
    decreases k,
{
    if k <= 0 {
        Seq::empty()
    } else {
        spec_render_upto(entries, global_prepend, k - 1) + spec_service_block(
            entries[k - 1].name@,
            global_prepend,
            entries[k - 1].service.prepend@,
            entries[k - 1].service.instances.view_seq(),
        )
    }
}

/// Every registry entry's block, in registry order.
pub open spec fn spec_render_services(entries: Seq<ServiceEntry>, global_prepend: Seq<char>) -> Seq<
    char,
> {
    spec_render_upto(entries, global_prepend, entries.len() as int)
}

/// Two views that agree below `k` have the same entry lines below `k`.
proof fn lemma_lines_upto_agree(a: Seq<InstanceView>, b: Seq<InstanceView>, k: int)
    requires
        forall|i: int| 0 <= i < k ==> a[i] == b[i],
    ensures
        spec_lines_upto(a, k) == spec_lines_upto(b, k),
    decreases k,
{
    if k > 0 {
        lemma_lines_upto_agree(a, b, k - 1);
    }
}

/// The sublist of currently enabled instances.
pub open spec fn spec_enabled_only(views: Seq<InstanceView>) -> Seq<InstanceView> {
    views.filter(|v: InstanceView| v.status is Enabled)
}

/// Within a block, exactly the currently enabled instances appear, in
/// order: the instance lines of a list equal the instance lines of its
/// enabled instances alone.  Disabled instances contribute nothing,
/// whatever their history.
pub proof fn lemma_lines_only_enabled(views: Seq<InstanceView>)
    ensures
        spec_instance_lines(views) == spec_instance_lines(spec_enabled_only(views)),
    decreases views.len(),
{
    reveal(Seq::filter);
    if views.len() == 0 {
    } else {
        let rest = views.drop_last();
        let last = views.last();
        lemma_lines_only_enabled(rest);
        lemma_lines_upto_agree(views, rest, views.len() as int - 1);
        if last.status is Enabled {
            let filtered = spec_enabled_only(rest).push(last);
            assert(spec_enabled_only(views) == filtered);
            lemma_lines_upto_agree(filtered, spec_enabled_only(rest), filtered.len() as int - 1);
            assert(filtered.last() == last);
        } else {
            assert(spec_enabled_only(views) == spec_enabled_only(rest));
            assert(spec_instance_lines(views) =~= spec_lines_upto(views, views.len() as int - 1));
        }
    }
}

/// A block whose instances are all disabled carries no instance line.
pub proof fn lemma_disabled_instances_omitted(views: Seq<InstanceView>, k: int)
    requires
        0 <= k <= views.len(),
        forall|i: int| 0 <= i < k ==> !((#[trigger] views[i]).status is Enabled),
    ensures
        spec_lines_upto(views, k) == Seq::<char>::empty(),
    decreases k,
{
    if k > 0 {
        lemma_disabled_instances_omitted(views, k - 1);
        assert(spec_lines_upto(views, k) =~= spec_lines_upto(views, k - 1));
    }
}

/// Ordering: in a well-formed registry the upstream blocks are rendered in
/// strictly ascending lexicographic name order.
pub proof fn lemma_output_blocks_ordered(services: Services, s1: int, s2: int)
    requires
        services.wf(),
        0 <= s1 < s2 < services.entries@.len(),
    ensures
        lex_lt(services.entries@[s1].name@, services.entries@[s2].name@),
{
}

/// Idempotence: a cycle that leaves every service's name, prefix and
/// instance views — statuses included — as they were renders a
/// byte-identical document; combined with the cycle's change signal being
/// `Unchanged` exactly when no status flipped, an unforced cycle with no
/// health change rewrites nothing.
pub proof fn lemma_unchanged_cycle_renders_identically(
    before: Seq<ServiceEntry>,
    after: Seq<ServiceEntry>,
    global_prepend: Seq<char>,
    k: int,
)
    requires
        0 <= k <= before.len(),
        after.len() == before.len(),
        forall|s: int|
            0 <= s < before.len() ==> {
                &&& (#[trigger] after[s]).name@ == before[s].name@
                &&& after[s].service.prepend@ == before[s].service.prepend@
                &&& after[s].service.instances.view_seq() == before[s].service.instances.view_seq()
            },
    ensures
        spec_render_upto(after, global_prepend, k) == spec_render_upto(
            before,
            global_prepend,
            k,
        ),
        forall|s: int, i: int|
            0 <= s < before.len() && 0 <= i < before[s].service.instances.view_seq().len()
                ==> !#[trigger] spec_entry_status_changed(before, after, s, i),
    decreases k,
{
    if k > 0 {
        lemma_unchanged_cycle_renders_identically(before, after, global_prepend, k - 1);
    }
}

/// Whether any of the first `k` registry entries touches connection `c`.
pub open spec fn spec_registry_touched_prefix(entries: Seq<ServiceEntry>, k: int, c: int) -> bool {
    exists|s: int| 0 <= s < k && (#[trigger] entries[s]).service.instances.spec_touches(c)
}

/// Whether instance `i` of entry `s` holds different statuses in two
/// registry snapshots.
pub open spec fn spec_entry_status_changed(
    before: Seq<ServiceEntry>,
    after: Seq<ServiceEntry>,
    s: int,
    i: int,
) -> bool {
    after[s].service.instances.view_seq()[i].status
        != before[s].service.instances.view_seq()[i].status
}

/// The registry: services under their names, in lexicographic name order,
/// plus the node connection records the registry owns and node instances
/// point into.
pub struct Services {
    pub entries: Vec<ServiceEntry>,
    pub connections: Vec<NodeConnection>,
}

/// Entry names strictly ascend: names are unique and blocks are rendered
/// in lexicographic name order.
pub open spec fn spec_sorted_entries(entries: Seq<ServiceEntry>) -> bool {
    forall|i: int, j: int|
        0 <= i < j < entries.len() ==> lex_lt(
            (#[trigger] entries[i]).name@,
            (#[trigger] entries[j]).name@,
        )
}

/// Whether some entry carries `name`.
pub open spec fn spec_contains_name(entries: Seq<ServiceEntry>, name: Seq<char>) -> bool {
    exists|i: int| 0 <= i < entries.len() && (#[trigger] entries[i]).name@ == name
}

impl Services {
    /// Registry well-formedness: entry names strictly ascend — so names
    /// are unique and blocks are rendered in lexicographic name order —
    /// and every node instance points at an existing connection record.
    pub open spec fn wf(&self) -> bool {
        &&& spec_sorted_entries(self.entries@)
        &&& forall|s: int|
            0 <= s < self.entries@.len() ==> (#[trigger] self.entries@[s]).service.instances.wf(
                self.connections@.len() as nat,
            )
    }

    /// Run one cycle's health checks over every service, in registry
    /// order, and merge the change signals.  `generic_results` carries one
    /// inner vector per registry entry (consulted only for the stateless
    /// kind); `fetches` carries one optional status report per connection.
    pub fn healthcheck(
        &mut self,
        epoch: Epoch,
        generic_results: &Vec<Vec<bool>>,
        fetches: &Vec<Option<StatusResponse>>,
    ) -> (r: StateChange)
        requires
            old(self).wf(),
            generic_results@.len() == old(self).entries@.len(),
            forall|s: int|
                0 <= s < old(self).entries@.len() ==> ((#[trigger] old(
                    self,
                ).entries@[s]).service.instances is Generic200Ok ==> generic_results@[s]@.len()
                    == old(self).entries@[s].service.instances.view_seq().len()),
            fetches@.len() == old(self).connections@.len(),
        ensures
            final(self).wf(),
            final(self).entries@.len() == old(self).entries@.len(),
            final(self).connections@.len() == old(self).connections@.len(),
            forall|c: int|
                0 <= c < old(self).connections@.len() ==> final(self).connections@[c] == (
                if spec_registry_touched_prefix(
                    old(self).entries@,
                    old(self).entries@.len() as int,
                    c,
                ) {
                    spec_node_step(old(self).connections@[c], epoch, fetches@[c])
                } else {
                    old(self).connections@[c]
                }),
            forall|s: int|
                0 <= s < old(self).entries@.len() ==> {
                    &&& (#[trigger] final(self).entries@[s]).name == old(self).entries@[s].name
                    &&& final(self).entries@[s].service.prepend == old(
                        self,
                    ).entries@[s].service.prepend
                    &&& (final(self).entries@[s].service.instances is Node <==> old(
                        self,
                    ).entries@[s].service.instances is Node)
                    &&& final(self).entries@[s].service.instances.view_seq().len() == old(
                        self,
                    ).entries@[s].service.instances.view_seq().len()
                },
            forall|s: int, i: int|
                0 <= s < old(self).entries@.len() && 0 <= i < old(
                    self,
                ).entries@[s].service.instances.view_seq().len() ==> {
                    &&& (#[trigger] final(self).entries@[s].service.instances.view_seq()[i]).name
                        == old(self).entries@[s].service.instances.view_seq()[i].name
                    &&& final(self).entries@[s].service.instances.view_seq()[i].output == old(
                        self,
                    ).entries@[s].service.instances.view_seq()[i].output
                    &&& final(self).entries@[s].service.instances.spec_conn(i) == old(
                        self,
                    ).entries@[s].service.instances.spec_conn(i)
                    &&& final(self).entries@[s].service.instances.view_seq()[i].status
                        == spec_status_after(
                        old(self).entries@[s].service.instances,
                        old(self).connections@,
                        epoch,
                        generic_results@[s]@,
                        fetches@,
                        i,
                    )
                },
            (r == StateChange::Changed) <==> exists|s: int, i: int|
                0 <= s < old(self).entries@.len() && 0 <= i < old(
                    self,
                ).entries@[s].service.instances.view_seq().len() && #[trigger] spec_entry_status_changed(
                    old(self).entries@,
                    final(self).entries@,
                    s,
                    i,
                ),
    {
        let ghost initial = self.entries@;
        let ghost initial_conns = self.connections@;
        let mut accumulated = StateChange::Unchanged;
        let n = self.entries.len();
        let mut s: usize = 0;
        while s < n
            invariant
                s <= n,
                n == self.entries@.len(),
                self.entries@.len() == initial.len(),
                self.connections@.len() == initial_conns.len(),
                generic_results@.len() == initial.len(),
                fetches@.len() == initial_conns.len(),
                forall|t: int|
                    0 <= t < initial.len() ==> ((#[trigger] initial[t]).service.instances
                        is Generic200Ok ==> generic_results@[t]@.len()
                        == initial[t].service.instances.view_seq().len()),
                forall|t: int|
                    0 <= t < initial.len() ==> (#[trigger] initial[t]).service.instances.wf(
                        initial_conns.len() as nat,
                    ),
                forall|t: int| s <= t < initial.len() ==> self.entries@[t] == initial[t],
                forall|c: int|
                    0 <= c < initial_conns.len() ==> self.connections@[c] == (
                    if spec_registry_touched_prefix(initial, s as int, c) {
                        spec_node_step(initial_conns[c], epoch, fetches@[c])
                    } else {
                        initial_conns[c]
                    }),
                forall|t: int|
                    0 <= t < s ==> {
                        &&& (#[trigger] self.entries@[t]).name == initial[t].name
                        &&& self.entries@[t].service.prepend == initial[t].service.prepend
                        &&& (self.entries@[t].service.instances is Node <==> initial[t].service.instances is Node)
                        &&& self.entries@[t].service.instances.view_seq().len()
                            == initial[t].service.instances.view_seq().len()
                        &&& self.entries@[t].service.instances.wf(initial_conns.len() as nat)
                    },
                forall|t: int, i: int|
                    0 <= t < s && 0 <= i < initial[t].service.instances.view_seq().len() ==> {
                        &&& (#[trigger] self.entries@[t].service.instances.view_seq()[i]).name
                            == initial[t].service.instances.view_seq()[i].name
                        &&& self.entries@[t].service.instances.view_seq()[i].output
                            == initial[t].service.instances.view_seq()[i].output
                        &&& self.entries@[t].service.instances.spec_conn(i)
                            == initial[t].service.instances.spec_conn(i)
                        &&& self.entries@[t].service.instances.view_seq()[i].status
                            == spec_status_after(
                            initial[t].service.instances,
                            initial_conns,
                            epoch,
                            generic_results@[t]@,
                            fetches@,
                            i,
                        )
                    },
                (accumulated == StateChange::Changed) <==> exists|t: int, i: int|
                    0 <= t < s && 0 <= i < initial[t].service.instances.view_seq().len()
                        && #[trigger] spec_entry_status_changed(initial, self.entries@, t, i),
            decreases n - s,
        {
            let ghost entries_before = self.entries@;
            let ghost conns_before = self.connections@;
            let ghost acc_before = accumulated;
            let entry = &mut self.entries[s];
            let ghost insts_before = entry.service.instances;
            let change = entry.service.healthcheck(
                &mut self.connections,
                epoch,
                &generic_results[s],
                fetches,
            );
            proof {
                // The connections this service touched were stepped from
                // their current values; stepping is idempotent within one
                // epoch, so they now hold the step of their cycle-start
                // values, whether or not an earlier service stepped them.
                assert forall|c: int| 0 <= c < initial_conns.len() implies self.connections@[c] == (
                if spec_registry_touched_prefix(initial, s + 1, c) {
                    spec_node_step(initial_conns[c], epoch, fetches@[c])
                } else {
                    initial_conns[c]
                }) by {
                    node::lemma_node_step_idempotent(
                        initial_conns[c],
                        epoch,
                        fetches@[c],
                        fetches@[c],
                    );
                    if insts_before.spec_touches(c) {
                        assert(spec_registry_touched_prefix(initial, s + 1, c)) by {
                            assert(initial[s as int].service.instances.spec_touches(c));
                        }
                    } else {
                        assert(spec_registry_touched_prefix(initial, s + 1, c)
                            == spec_registry_touched_prefix(initial, s as int, c));
                    }
                }
                // This service's new statuses, stated over the cycle-start
                // connections rather than the ones current at its call.
                assert forall|i: int|
                    0 <= i < initial[s as int].service.instances.view_seq().len() implies (
                #[trigger] self.entries@[s as int].service.instances.view_seq()[i]).status
                    == spec_status_after(
                    initial[s as int].service.instances,
                    initial_conns,
                    epoch,
                    generic_results@[s as int]@,
                    fetches@,
                    i,
                ) by {
                    if insts_before is Node {
                        let ci = insts_before.spec_conn(i);
                        node::lemma_node_step_idempotent(
                            initial_conns[ci],
                            epoch,
                            fetches@[ci],
                            fetches@[ci],
                        );
                    }
                }
            }
            accumulated = accumulated.combine(change);
            proof {
                if acc_before == StateChange::Changed {
                    let (t0, i0) = choose|t: int, i: int|
                        0 <= t < s && 0 <= i < initial[t].service.instances.view_seq().len()
                            && #[trigger] spec_entry_status_changed(initial, entries_before, t, i);
                    assert(spec_entry_status_changed(initial, self.entries@, t0, i0));
                }
                if change == StateChange::Changed {
                    let i0 = choose|i: int|
                        0 <= i < insts_before.view_seq().len() && (#[trigger] self.entries@[s as int].service.instances.view_seq()[i]).status
                            != insts_before.view_seq()[i].status;
                    assert(spec_entry_status_changed(initial, self.entries@, s as int, i0));
                }
                if accumulated == StateChange::Unchanged {
                    assert forall|t: int, i: int|
                        0 <= t < s + 1 && 0 <= i
                            < initial[t].service.instances.view_seq().len() implies !(
                    #[trigger] spec_entry_status_changed(initial, self.entries@, t, i)) by {
                        if t < s {
                            assert(!spec_entry_status_changed(initial, entries_before, t, i));
                            assert(self.entries@[t] == entries_before[t]);
                        } else {
                            assert(self.entries@[t].service.instances.view_seq()[i].status
                                == insts_before.view_seq()[i].status);
                        }
                    }
                }
            }
            s = s + 1;
        }
        accumulated
    }
}

/// Insert a service under its name at its sorted position; a name already
/// present is a fatal collision, and the registry is left as it was.
fn insert_service(entries: &mut Vec<ServiceEntry>, name: String, service: Service) -> (r: Result<
    (),
    ConstructionError,
>)
    requires
        spec_sorted_entries(old(entries)@),
    ensures
        spec_sorted_entries(final(entries)@),
        match r {
            Err(e) => {
                &&& e is ServiceNameCollision
                &&& *final(entries) == *old(entries)
                &&& spec_contains_name(old(entries)@, name@)
            },
            Ok(()) => {
                &&& !spec_contains_name(old(entries)@, name@)
                &&& exists|p: int|
                    0 <= p <= old(entries)@.len() && final(entries)@ =~= old(entries)@.insert(
                        p,
                        ServiceEntry { name, service },
                    )
                &&& final(entries)@.len() == old(entries)@.len() + 1
            },
        },
        forall|m: Seq<char>| #[trigger]
            spec_contains_name(final(entries)@, m) <==> (spec_contains_name(old(entries)@, m) || (
            r is Ok && m == name@)),
        forall|s: int|
            0 <= s < final(entries)@.len() ==> ((exists|s2: int|
                0 <= s2 < old(entries)@.len() && old(entries)@[s2]
                    == #[trigger] final(entries)@[s]) || (r is Ok && final(entries)@[s]
                == (ServiceEntry { name, service }))),
        forall|s2: int|
            0 <= s2 < old(entries)@.len() ==> spec_entry_present(
                final(entries)@,
                #[trigger] old(entries)@[s2],
            ),
        r is Ok ==> spec_entry_present(final(entries)@, ServiceEntry { name, service }),
{
    let ghost initial = entries@;
    let n = entries.len();
    let mut p: usize = 0;
    while p < n && str_lex_lt(entries[p].name.as_str(), name.as_str())
        invariant
            p <= n,
            n == entries@.len(),
            entries@ == initial,
            forall|j: int| 0 <= j < p ==> lex_lt((#[trigger] initial[j]).name@, name@),
        decreases n - p,
    {
        p = p + 1;
    }
    if p < n && !str_lex_lt(name.as_str(), entries[p].name.as_str()) {
        proof {
            lemma_lex_trichotomy(name@, initial[p as int].name@);
            assert(spec_contains_name(initial, name@)) by {
                assert(initial[p as int].name@ == name@);
            }
        }
        return Err(ConstructionError::ServiceNameCollision);
    }
    proof {
        // `name` is strictly greater than every entry before `p` and
        // strictly smaller than every entry from `p` on, so it is fresh
        // and the insertion keeps the order strict.
        assert forall|j: int| 0 <= j < initial.len() implies ((j < p ==> lex_lt(
            (#[trigger] initial[j]).name@,
            name@,
        )) && (j >= p ==> lex_lt(name@, initial[j].name@)) && initial[j].name@ != name@) by {
            lemma_lex_trichotomy(name@, initial[j].name@);
            if j > p {
                lemma_lex_transitive(name@, initial[p as int].name@, initial[j].name@);
            }
        }
        assert(!spec_contains_name(initial, name@));
    }
    let ghost entry_name = name@;
    let ghost entry = ServiceEntry { name: name, service: service };
    entries.insert(p, ServiceEntry { name, service });
    proof {
        let inserted = entries@;
        assert(inserted == initial.insert(p as int, entry));
        initial.insert_ensures(p as int, entry);
        assert(entry.name@ == entry_name);
        assert forall|i: int, j: int| 0 <= i < j < inserted.len() implies lex_lt(
            (#[trigger] inserted[i]).name@,
            (#[trigger] inserted[j]).name@,
        ) by {
            if j < p {
                assert(inserted[i] == initial[i] && inserted[j] == initial[j]);
            } else if j == p {
                assert(inserted[i] == initial[i]);
            } else if i < p {
                assert(inserted[j] == initial[j - 1]);
                if i < p {
                    assert(inserted[i] == initial[i]);
                    lemma_lex_transitive(initial[i].name@, entry_name, initial[j - 1].name@);
                }
            } else if i == p {
                assert(inserted[j] == initial[j - 1]);
            } else {
                assert(inserted[i] == initial[i - 1] && inserted[j] == initial[j - 1]);
            }
        }
        assert forall|m: Seq<char>| #[trigger]
            spec_contains_name(inserted, m) <==> (spec_contains_name(initial, m) || m
            == entry_name) by {
            if spec_contains_name(inserted, m) {
                let i0 = choose|i: int| 0 <= i < inserted.len() && (#[trigger] inserted[i]).name@
                    == m;
                if i0 < p {
                    assert(initial[i0].name@ == m);
                } else if i0 > p {
                    assert(inserted[i0] == initial[i0 - 1]);
                    assert(initial[i0 - 1].name@ == m);
                }
            }
            if spec_contains_name(initial, m) {
                let i0 = choose|i: int| 0 <= i < initial.len() && (#[trigger] initial[i]).name@
                    == m;
                if i0 < p {
                    assert(inserted[i0].name@ == m);
                } else {
                    assert(inserted[i0 + 1] == initial[i0]);
                    assert(inserted[i0 + 1].name@ == m);
                }
            }
            if m == entry_name {
                assert(inserted[p as int].name@ == m);
            }
        }
        assert forall|s: int| 0 <= s < inserted.len() implies ((exists|s2: int|
            0 <= s2 < initial.len() && initial[s2] == #[trigger] inserted[s]) || inserted[s]
            == entry) by {
            if s < p {
                assert(initial[s] == inserted[s]);
            } else if s > p {
                assert(initial[s - 1] == inserted[s]);
            }
        }
        assert forall|s2: int| 0 <= s2 < initial.len() implies spec_entry_present(
            inserted,
            #[trigger] initial[s2],
        ) by {
            if s2 < p {
                assert(inserted[s2] == initial[s2]);
            } else {
                assert(inserted[s2 + 1] == initial[s2]);
            }
        }
        assert(spec_entry_present(inserted, entry)) by {
            assert(inserted[p as int] == entry);
        }
    }
    Ok(())
}

/// Whether an entry was already in the registry or carries a service from
/// the batch being collected.
pub open spec fn spec_entry_from(
    entries_start: Seq<ServiceEntry>,
    batch: Seq<(String, Service)>,
    entry: ServiceEntry,
) -> bool {
    (exists|s2: int| 0 <= s2 < entries_start.len() && entries_start[s2] == entry) || (exists|
        b2: int,
    |
        0 <= b2 < batch.len() && batch[b2].1 == entry.service)
}

/// Whether some entry holds exactly this value.
pub open spec fn spec_entry_present(entries: Seq<ServiceEntry>, entry: ServiceEntry) -> bool {
    exists|s: int| 0 <= s < entries.len() && entries[s] == entry
}

/// The names a batch of built services carries.
pub open spec fn spec_batch_names(batch: Seq<(String, Service)>) -> Seq<Seq<char>> {
    batch.map(|i: int, pair: (String, Service)| pair.0@)
}

/// Whether a sequence of names holds `name`.
pub open spec fn spec_names_contain(names: Seq<Seq<char>>, name: Seq<char>) -> bool {
    exists|i: int| 0 <= i < names.len() && names[i] == name
}

/// Whether a sequence of names holds the same name twice.
pub open spec fn spec_has_duplicate(names: Seq<Seq<char>>) -> bool {
    exists|i: int, j: int| 0 <= i < j < names.len() && names[i] == names[j]
}

/// Collect freshly built services into the registry, one sorted insertion
/// each; any name met twice — within the batch or against the registry —
/// is a fatal collision.
pub fn collect_services_from_iter(entries: &mut Vec<ServiceEntry>, batch: Vec<(String, Service)>)
    -> (r: Result<(), ConstructionError>)
    requires
        spec_sorted_entries(old(entries)@),
    ensures
        spec_sorted_entries(final(entries)@),
        forall|m: Seq<char>|
            spec_contains_name(old(entries)@, m) ==> spec_contains_name(final(entries)@, m),
        forall|s: int|
            0 <= s < final(entries)@.len() ==> spec_entry_from(
                old(entries)@,
                batch@,
                #[trigger] final(entries)@[s],
            ),
        forall|s2: int|
            0 <= s2 < old(entries)@.len() ==> spec_entry_present(
                final(entries)@,
                #[trigger] old(entries)@[s2],
            ),
        r is Ok ==> forall|b2: int|
            0 <= b2 < batch@.len() ==> spec_entry_present(
                final(entries)@,
                ServiceEntry { name: (#[trigger] batch@[b2]).0, service: batch@[b2].1 },
            ),
        match r {
            Err(e) => {
                &&& e is ServiceNameCollision
                &&& exists|b: int|
                    0 <= b < batch@.len() && (spec_contains_name(
                        old(entries)@,
                        (#[trigger] batch@[b]).0@,
                    ) || exists|b2: int| 0 <= b2 < b && batch@[b2].0@ == batch@[b].0@)
            },
            Ok(()) => {
                &&& forall|b: int|
                    0 <= b < batch@.len() ==> !spec_contains_name(
                        old(entries)@,
                        (#[trigger] batch@[b]).0@,
                    )
                &&& !spec_has_duplicate(spec_batch_names(batch@))
                &&& forall|m: Seq<char>| #[trigger]
                    spec_contains_name(final(entries)@, m) <==> (spec_contains_name(
                        old(entries)@,
                        m,
                    ) || spec_names_contain(spec_batch_names(batch@), m))
            },
        },
{
    let ghost initial = entries@;
    let ghost all = batch@;
    let ghost names = spec_batch_names(batch@);
    let mut remaining = batch;
    let mut failure: Option<ConstructionError> = None;
    let ghost mut b: int = 0;
    proof {
        assert forall|s: int| 0 <= s < entries@.len() implies spec_entry_from(
            initial,
            all,
            #[trigger] entries@[s],
        ) by {
            assert(initial[s] == entries@[s]);
        }
        assert forall|s2: int| 0 <= s2 < initial.len() implies spec_entry_present(
            entries@,
            #[trigger] initial[s2],
        ) by {
            assert(entries@[s2] == initial[s2]);
        }
    }
    while remaining.len() > 0
        invariant
            0 <= b,
            spec_sorted_entries(entries@),
            b + remaining@.len() == all.len(),
            remaining@ =~= all.skip(b),
            names == spec_batch_names(all),
            forall|m: Seq<char>|
                spec_contains_name(initial, m) ==> spec_contains_name(entries@, m),
            forall|s: int|
                0 <= s < entries@.len() ==> spec_entry_from(
                    initial,
                    all,
                    #[trigger] entries@[s],
                ),
            forall|s2: int|
                0 <= s2 < initial.len() ==> spec_entry_present(entries@, #[trigger] initial[s2]),
            failure is None ==> forall|b2: int|
                0 <= b2 < b ==> spec_entry_present(
                    entries@,
                    ServiceEntry { name: (#[trigger] all[b2]).0, service: all[b2].1 },
                ),
            match failure {
                None => {
                    &&& (forall|m: Seq<char>| #[trigger]
                        spec_contains_name(entries@, m) <==> (spec_contains_name(initial, m)
                            || exists|b2: int| 0 <= b2 < b && names[b2] == m))
                    &&& (forall|b2: int|
                        0 <= b2 < b ==> !spec_contains_name(initial, #[trigger] names[b2])
                            && !exists|b3: int| 0 <= b3 < b2 && names[b3] == names[b2])
                },
                Some(e) => {
                    &&& e is ServiceNameCollision
                    &&& exists|bb: int|
                        0 <= bb < all.len() && (spec_contains_name(
                            initial,
                            (#[trigger] all[bb]).0@,
                        ) || exists|b2: int| 0 <= b2 < bb && all[b2].0@ == all[bb].0@)
                },
            },
        decreases remaining@.len(),
    {
        let (name, service) = remaining.remove(0);
        proof {
            assert(all[b].0@ == name@);
            assert(spec_batch_names(all)[b] == all[b].0@);
            assert(names[b] == name@);
        }
        match failure {
            Some(_) => {},
            None => {
                let ghost entries_pre = entries@;
                match insert_service(entries, name, service) {
                    Ok(()) => {},
                    Err(e) => {
                        proof {
                            assert(spec_contains_name(initial, names[b]) || exists|b2: int|
                                0 <= b2 < b && names[b2] == names[b]);
                            if !spec_contains_name(initial, names[b]) {
                                let b2 = choose|b2: int| 0 <= b2 < b && names[b2] == names[b];
                                assert(spec_batch_names(all)[b2] == all[b2].0@);
                                assert(all[b2].0@ == all[b].0@);
                            }
                            assert(0 <= b < all.len());
                        }
                        failure = Some(e);
                    },
                }
                proof {
                    assert forall|s: int| 0 <= s < entries@.len() implies spec_entry_from(
                        initial,
                        all,
                        #[trigger] entries@[s],
                    ) by {
                        if exists|s2: int|
                            0 <= s2 < entries_pre.len() && entries_pre[s2] == entries@[s] {
                            let s2 = choose|s2: int|
                                0 <= s2 < entries_pre.len() && entries_pre[s2] == entries@[s];
                            assert(spec_entry_from(initial, all, entries_pre[s2]));
                        } else {
                            assert(entries@[s].service == all[b].1);
                        }
                    }
                    assert forall|s2: int| 0 <= s2 < initial.len() implies spec_entry_present(
                        entries@,
                        #[trigger] initial[s2],
                    ) by {
                        let s_pre = choose|s: int|
                            0 <= s < entries_pre.len() && entries_pre[s] == initial[s2];
                        assert(spec_entry_present(entries@, entries_pre[s_pre]));
                    }
                    match failure {
                        None => {
                            assert forall|b2: int| 0 <= b2 < b + 1 implies spec_entry_present(
                                entries@,
                                ServiceEntry { name: (#[trigger] all[b2]).0, service: all[b2].1 },
                            ) by {
                                let placed = ServiceEntry { name: all[b2].0, service: all[b2].1 };
                                if b2 < b {
                                    let s_pre = choose|s: int|
                                        0 <= s < entries_pre.len() && entries_pre[s] == placed;
                                    assert(spec_entry_present(entries@, entries_pre[s_pre]));
                                } else {
                                    assert(spec_entry_present(entries@, ServiceEntry {
                                        name: all[b].0,
                                        service: all[b].1,
                                    }));
                                }
                            }
                        },
                        Some(_) => {},
                    }
                }
            },
        }
        proof {
            assert(remaining@ =~= all.skip(b + 1));
            b = b + 1;
        }
    }
    match failure {
        Some(e) => Err(e),
        None => {
            proof {
                assert(b == all.len());
                assert forall|b2: int| 0 <= b2 < all.len() implies names[b2] == (
                #[trigger] all[b2]).0@ by {
                    assert(spec_batch_names(all)[b2] == all[b2].0@);
                }
                assert(!spec_has_duplicate(names)) by {
                    if spec_has_duplicate(names) {
                        let (i0, j0) = choose|i: int, j: int|
                            0 <= i < j < names.len() && names[i] == names[j];
                        assert(!(exists|b3: int| 0 <= b3 < j0 && names[b3] == names[j0]));
                        assert(false);
                    }
                }
            }
            Ok(())
        },
    }
}

/// Build one generic service: one instance per declaration, in order, its
/// starting status taken from the initial probe's outcome.
fn generic_service(
    prepend: String,
    configuration: Vec<(String, generic_200_ok::StorageConfiguration)>,
    probes: &Vec<bool>,
) -> (r: Service)
    requires
        probes@.len() == configuration@.len(),
    ensures
        r.prepend == prepend,
        r.instances is Generic200Ok,
        r.instances.view_seq().len() == configuration@.len(),
        forall|j: int|
            0 <= j < configuration@.len() ==> {
                &&& (#[trigger] r.instances.view_seq()[j]).name == configuration@[j].0@
                &&& r.instances.view_seq()[j].status == Status::spec_from_bool(probes@[j])
                &&& r.instances.view_seq()[j].output == configuration@[j].1.output@
            },
{
    let ghost decls = configuration@;
    let mut remaining = configuration;
    let mut instances: Vec<Instance<generic_200_ok::Configuration, generic_200_ok::State>> =
        Vec::new();
    while remaining.len() > 0
        invariant
            instances@.len() + remaining@.len() == decls.len(),
            remaining@ =~= decls.skip(instances@.len() as int),
            probes@.len() == decls.len(),
            forall|k: int|
                0 <= k < instances@.len() ==> {
                    &&& (#[trigger] instances@[k]).instance_name == decls[k].0
                    &&& instances@[k].status == Status::spec_from_bool(probes@[k])
                    &&& instances@[k].configuration.output == decls[k].1.output
                    &&& instances@[k].state.healthcheck_url == decls[k].1.healthcheck_url
                },
        decreases remaining@.len(),
    {
        let k = instances.len();
        let (instance_name, storage) = remaining.remove(0);
        proof {
            assert(decls.skip(k as int)[0] == decls[k as int]);
        }
        let probe = probes[k];
        let inst = storage.create_instance(instance_name, probe);
        instances.push(inst);
        proof {
            assert(remaining@ =~= decls.skip(instances@.len() as int));
        }
    }
    let ghost built = instances@;
    let r = Service { prepend, instances: Instances::Generic200Ok(instances) };
    proof {
        assert forall|j: int| 0 <= j < decls.len() implies {
            &&& (#[trigger] r.instances.view_seq()[j]).name == decls[j].0@
            &&& r.instances.view_seq()[j].status == Status::spec_from_bool(probes@[j])
            &&& r.instances.view_seq()[j].output == decls[j].1.output@
        } by {
            assert(spec_views_of(built)[j].name == built[j].instance_name@);
        }
    }
    r
}

/// Whether `service` is facade `f` — 0 for lcd, 1 for json-rpc, 2 for
/// grpc — of the declared node instances, whose shared connections start
/// at index `base`.
pub open spec fn spec_node_facade(
    service: Service,
    prepend: Seq<char>,
    decls: Seq<(String, node::StorageConfiguration)>,
    base: int,
    f: int,
) -> bool {
    &&& service.prepend@ == prepend
    &&& service.instances is Node
    &&& service.instances.view_seq().len() == decls.len()
    &&& forall|j: int|
        #![trigger service.instances.view_seq()[j]]
        #![trigger service.instances.spec_conn(j)]
        0 <= j < decls.len() ==> {
            &&& service.instances.view_seq()[j].name == decls[j].0@
            &&& service.instances.view_seq()[j].status is Disabled
            &&& service.instances.view_seq()[j].output == (if f == 0 {
                decls[j].1.outputs.lcd@
            } else if f == 1 {
                decls[j].1.outputs.json_rpc@
            } else {
                decls[j].1.outputs.grpc@
            })
            &&& service.instances.spec_conn(j) == base + j
        }
}

/// Expand one declared node service into its three facade services — the
/// declared name with the three fixed suffixes — appending one shared
/// connection record per declared instance.  A failed initial status fetch
/// is a fatal construction error reported before anything is built.
fn node_services(
    service_name: String,
    prepend: String,
    configuration: Vec<(String, node::StorageConfiguration)>,
    probes: &Vec<Option<StatusResponse>>,
    connections: &mut Vec<NodeConnection>,
) -> (r: Result<node::Instances<(String, Service)>, ConstructionError>)
    requires
        probes@.len() == configuration@.len(),
    ensures
        final(connections)@.len() >= old(connections)@.len(),
        forall|c: int|
            0 <= c < old(connections)@.len() ==> final(connections)@[c] == old(connections)@[c],
        match r {
            Err(e) => {
                &&& e is NodeStatusUnavailable
                &&& exists|j: int| 0 <= j < probes@.len() && (#[trigger] probes@[j]) is None
                &&& *final(connections) == *old(connections)
            },
            Ok(services) => {
                &&& forall|j: int| 0 <= j < probes@.len() ==> (#[trigger] probes@[j]) is Some
                &&& final(connections)@.len() == old(connections)@.len() + configuration@.len()
                &&& forall|j: int|
                    0 <= j < configuration@.len() ==> final(connections)@[old(connections)@.len()
                        + j] == (NodeConnection {
                        url: (#[trigger] configuration@[j]).1.status_url,
                        last_block: probes@[j]->Some_0.latest_block_height,
                        epoch: Epoch(0),
                        status: Status::Disabled,
                    })
                &&& services.lcd.0@ == service_name@ + "_lcd"@
                &&& services.json_rpc.0@ == service_name@ + "_rpc"@
                &&& services.grpc.0@ == service_name@ + "_grpc"@
                &&& spec_node_facade(
                    services.lcd.1,
                    prepend@,
                    configuration@,
                    old(connections)@.len() as int,
                    0,
                )
                &&& spec_node_facade(
                    services.json_rpc.1,
                    prepend@,
                    configuration@,
                    old(connections)@.len() as int,
                    1,
                )
                &&& spec_node_facade(
                    services.grpc.1,
                    prepend@,
                    configuration@,
                    old(connections)@.len() as int,
                    2,
                )
            },
        },
{
    let n = configuration.len();
    let mut j: usize = 0;
    while j < n
        invariant
            j <= n,
            n == configuration@.len(),
            probes@.len() == n,
            forall|k: int| 0 <= k < j ==> (#[trigger] probes@[k]) is Some,
        decreases n - j,
    {
        match &probes[j] {
            None => {
                return Err(ConstructionError::NodeStatusUnavailable);
            },
            Some(_) => {},
        }
        j = j + 1;
    }
    let ghost base = connections@.len() as int;
    let ghost decls = configuration@;
    let mut remaining = configuration;
    let mut lcd: Vec<Instance<node::Configuration, node::State>> = Vec::new();
    let mut json_rpc: Vec<Instance<node::Configuration, node::State>> = Vec::new();
    let mut grpc: Vec<Instance<node::Configuration, node::State>> = Vec::new();
    while remaining.len() > 0
        invariant
            lcd@.len() == json_rpc@.len() && json_rpc@.len() == grpc@.len(),
            lcd@.len() + remaining@.len() == decls.len(),
            remaining@ =~= decls.skip(lcd@.len() as int),
            probes@.len() == decls.len(),
            forall|k: int| 0 <= k < decls.len() ==> (#[trigger] probes@[k]) is Some,
            base == old(connections)@.len(),
            connections@.len() == base + lcd@.len(),
            forall|c: int| 0 <= c < base ==> connections@[c] == old(connections)@[c],
            forall|k: int|
                0 <= k < lcd@.len() ==> connections@[base + k] == (NodeConnection {
                    url: (#[trigger] decls[k]).1.status_url,
                    last_block: probes@[k]->Some_0.latest_block_height,
                    epoch: Epoch(0),
                    status: Status::Disabled,
                }),
            forall|k: int|
                0 <= k < lcd@.len() ==> {
                    &&& (#[trigger] lcd@[k]).instance_name == decls[k].0
                    &&& lcd@[k].status is Disabled
                    &&& lcd@[k].configuration.output == decls[k].1.outputs.lcd
                    &&& lcd@[k].state.connection == base + k
                },
            forall|k: int|
                0 <= k < json_rpc@.len() ==> {
                    &&& (#[trigger] json_rpc@[k]).instance_name == decls[k].0
                    &&& json_rpc@[k].status is Disabled
                    &&& json_rpc@[k].configuration.output == decls[k].1.outputs.json_rpc
                    &&& json_rpc@[k].state.connection == base + k
                },
            forall|k: int|
                0 <= k < grpc@.len() ==> {
                    &&& (#[trigger] grpc@[k]).instance_name == decls[k].0
                    &&& grpc@[k].status is Disabled
                    &&& grpc@[k].configuration.output == decls[k].1.outputs.grpc
                    &&& grpc@[k].state.connection == base + k
                },
        decreases remaining@.len(),
    {
        let k = lcd.len();
        let (instance_name, storage) = remaining.remove(0);
        proof {
            assert(decls.skip(k as int)[0] == decls[k as int]);
        }
        let probe = probes[k];
        let group = match storage.create_instance(instance_name, probe, connections) {
            Ok(group) => group,
            Err(e) => {
                proof {
                    assert(false);
                }
                return Err(e);
            },
        };
        lcd.push(group.lcd);
        json_rpc.push(group.json_rpc);
        grpc.push(group.grpc);
        proof {
            assert(remaining@ =~= decls.skip(lcd@.len() as int));
        }
    }
    let lcd_name = service_name.clone().concat("_lcd");
    let json_rpc_name = service_name.clone().concat("_rpc");
    let grpc_name = service_name.concat("_grpc");
    let ghost built_lcd = lcd@;
    let ghost built_json_rpc = json_rpc@;
    let ghost built_grpc = grpc@;
    let services = node::Instances {
        lcd: (lcd_name, Service { prepend: prepend.clone(), instances: Instances::Node(lcd) }),
        json_rpc: (
            json_rpc_name,
            Service { prepend: prepend.clone(), instances: Instances::Node(json_rpc) },
        ),
        grpc: (grpc_name, Service { prepend, instances: Instances::Node(grpc) }),
    };
    proof {
        assert forall|j2: int| 0 <= j2 < decls.len() implies {
            &&& (#[trigger] spec_views_of(built_lcd)[j2]).name == decls[j2].0@
            &&& spec_views_of(built_json_rpc)[j2].name == decls[j2].0@
            &&& spec_views_of(built_grpc)[j2].name == decls[j2].0@
        } by {
            assert(spec_views_of(built_lcd)[j2].name == built_lcd[j2].instance_name@);
            assert(spec_views_of(built_json_rpc)[j2].name == built_json_rpc[j2].instance_name@);
            assert(spec_views_of(built_grpc)[j2].name == built_grpc[j2].instance_name@);
        }
    }
    Ok(services)
}

/// The registry names one declared service contributes: the declared name
/// itself, or its three facade expansions for a node declaration.
pub open spec fn spec_names_of(declared: (String, ServiceConfiguration)) -> Seq<Seq<char>> {
    match declared.1 {
        ServiceConfiguration::Generic200Ok { .. } => seq![declared.0@],
        ServiceConfiguration::Node { .. } => seq![
            declared.0@ + "_lcd"@,
            declared.0@ + "_rpc"@,
            declared.0@ + "_grpc"@,
        ],
    }
}

/// The names the first `k` declared services contribute, in order.
pub open spec fn spec_expanded_upto(
    configurations: Seq<(String, ServiceConfiguration)>,
    k: int,
) -> Seq<Seq<char>>
    decreases k,
{
    if k <= 0 {
        Seq::empty()
    } else {
        spec_expanded_upto(configurations, k - 1) + spec_names_of(configurations[k - 1])
    }
}

/// Every name the declared services contribute, in declaration order.
pub open spec fn spec_expanded_names(
    configurations: Seq<(String, ServiceConfiguration)>,
) -> Seq<Seq<char>> {
    spec_expanded_upto(configurations, configurations.len() as int)
}

/// An earlier prefix of the expanded names is a prefix of a later one.
proof fn lemma_expanded_prefix(
    configurations: Seq<(String, ServiceConfiguration)>,
    k1: int,
    k2: int,
)
    requires
        0 <= k1 <= k2 <= configurations.len(),
    ensures
        spec_expanded_upto(configurations, k1).len() <= spec_expanded_upto(
            configurations,
            k2,
        ).len(),
        forall|i: int|
            0 <= i < spec_expanded_upto(configurations, k1).len() ==> #[trigger] spec_expanded_upto(
                configurations,
                k2,
            )[i] == spec_expanded_upto(configurations, k1)[i],
    decreases k2 - k1,
{
    if k1 < k2 {
        lemma_expanded_prefix(configurations, k1, k2 - 1);
    }
}

/// Where the connection records of declaration `k` start: one record per
/// node instance declared before it.
pub open spec fn spec_connection_base(
    configurations: Seq<(String, ServiceConfiguration)>,
    k: int,
) -> int
    decreases k,
{
    if k <= 0 {
        0
    } else {
        spec_connection_base(configurations, k - 1) + (match configurations[k - 1].1 {
            ServiceConfiguration::Node { instances, .. } => instances@.len() as int,
            ServiceConfiguration::Generic200Ok { .. } => 0,
        })
    }
}

/// The connection records a node declaration contributes, starting at
/// `base`: per declared instance its status URL, the watermark its initial
/// fetch reported, a zero epoch and a disabled status.
pub open spec fn spec_node_decl_connections(
    declared: (String, ServiceConfiguration),
    probe: InitialProbe,
    connections: Seq<NodeConnection>,
    base: int,
) -> bool {
    match (declared.1, probe) {
        (ServiceConfiguration::Node { instances, .. }, InitialProbe::Node(v)) => forall|j: int|
            0 <= j < instances@.len() ==> #[trigger] connections[base + j] == (NodeConnection {
                url: instances@[j].1.status_url,
                last_block: v@[j]->Some_0.latest_block_height,
                epoch: Epoch(0),
                status: Status::Disabled,
            }),
        _ => true,
    }
}

/// Whether `service` is the generic service a declaration and its initial
/// probe outcomes describe.
pub open spec fn spec_generic_built(
    service: Service,
    prepend: Seq<char>,
    decls: Seq<(String, generic_200_ok::StorageConfiguration)>,
    probes: Seq<bool>,
) -> bool {
    &&& service.prepend@ == prepend
    &&& service.instances is Generic200Ok
    &&& service.instances.view_seq().len() == decls.len()
    &&& forall|j: int|
        #![trigger service.instances.view_seq()[j]]
        0 <= j < decls.len() ==> {
            &&& service.instances.view_seq()[j].name == decls[j].0@
            &&& service.instances.view_seq()[j].status == Status::spec_from_bool(probes[j])
            &&& service.instances.view_seq()[j].output == decls[j].1.output@
        }
}

/// Whether the registry realizes one declaration: the declared service —
/// or, for a node, its three facade expansions — stands under its name
/// with exactly the declared content.
pub open spec fn spec_declaration_realized(
    entries: Seq<ServiceEntry>,
    declared: (String, ServiceConfiguration),
    probe: InitialProbe,
    base: int,
) -> bool {
    match (declared.1, probe) {
        (
            ServiceConfiguration::Generic200Ok { prepend, instances },
            InitialProbe::Generic200Ok(v),
        ) => exists|s: int|
            0 <= s < entries.len() && (#[trigger] entries[s]).name@ == declared.0@
                && spec_generic_built(entries[s].service, prepend@, instances@, v@),
        (ServiceConfiguration::Node { prepend, instances }, InitialProbe::Node(_)) => {
            &&& exists|s: int|
                0 <= s < entries.len() && (#[trigger] entries[s]).name@ == declared.0@ + "_lcd"@
                    && spec_node_facade(entries[s].service, prepend@, instances@, base, 0)
            &&& exists|s: int|
                0 <= s < entries.len() && (#[trigger] entries[s]).name@ == declared.0@ + "_rpc"@
                    && spec_node_facade(entries[s].service, prepend@, instances@, base, 1)
            &&& exists|s: int|
                0 <= s < entries.len() && (#[trigger] entries[s]).name@ == declared.0@ + "_grpc"@
                    && spec_node_facade(entries[s].service, prepend@, instances@, base, 2)
        },
        _ => false,
    }
}

/// An entry-preserving registry extension realizes every declaration the
/// registry already realized.
proof fn lemma_realized_preserved(
    before: Seq<ServiceEntry>,
    after: Seq<ServiceEntry>,
    declared: (String, ServiceConfiguration),
    probe: InitialProbe,
    base: int,
)
    requires
        spec_declaration_realized(before, declared, probe, base),
        forall|s2: int|
            0 <= s2 < before.len() ==> spec_entry_present(after, #[trigger] before[s2]),
    ensures
        spec_declaration_realized(after, declared, probe, base),
{
    match (declared.1, probe) {
        (
            ServiceConfiguration::Generic200Ok { prepend, instances },
            InitialProbe::Generic200Ok(v),
        ) => {
            let s0 = choose|s: int|
                0 <= s < before.len() && (#[trigger] before[s]).name@ == declared.0@
                    && spec_generic_built(before[s].service, prepend@, instances@, v@);
            let s1 = choose|s: int| 0 <= s < after.len() && after[s] == before[s0];
            assert((#[trigger] after[s1]).name@ == declared.0@);
        },
        (ServiceConfiguration::Node { prepend, instances }, InitialProbe::Node(_)) => {
            let lcd = choose|s: int|
                0 <= s < before.len() && (#[trigger] before[s]).name@ == declared.0@ + "_lcd"@
                    && spec_node_facade(before[s].service, prepend@, instances@, base, 0);
            let lcd2 = choose|s: int| 0 <= s < after.len() && after[s] == before[lcd];
            assert((#[trigger] after[lcd2]).name@ == declared.0@ + "_lcd"@);
            let rpc = choose|s: int|
                0 <= s < before.len() && (#[trigger] before[s]).name@ == declared.0@ + "_rpc"@
                    && spec_node_facade(before[s].service, prepend@, instances@, base, 1);
            let rpc2 = choose|s: int| 0 <= s < after.len() && after[s] == before[rpc];
            assert((#[trigger] after[rpc2]).name@ == declared.0@ + "_rpc"@);
            let grpc = choose|s: int|
                0 <= s < before.len() && (#[trigger] before[s]).name@ == declared.0@ + "_grpc"@
                    && spec_node_facade(before[s].service, prepend@, instances@, base, 2);
            let grpc2 = choose|s: int| 0 <= s < after.len() && after[s] == before[grpc];
            assert((#[trigger] after[grpc2]).name@ == declared.0@ + "_grpc"@);
        },
        _ => {},
    }
}

/// Alignment of the initial probe outcomes with the declared services: one
/// probe list per declaration, shaped like its kind.
pub open spec fn spec_probes_match(
    configurations: Seq<(String, ServiceConfiguration)>,
    probes: Seq<InitialProbe>,
) -> bool {
    &&& probes.len() == configurations.len()
    &&& forall|k: int|
        0 <= k < configurations.len() ==> match ((#[trigger] configurations[k]).1, probes[k]) {
            (
                ServiceConfiguration::Generic200Ok { instances, .. },
                InitialProbe::Generic200Ok(v),
            ) => v@.len() == instances@.len(),
            (ServiceConfiguration::Node { instances, .. }, InitialProbe::Node(v)) => v@.len()
                == instances@.len(),
            _ => false,
        }
}

/// Whether every node declaration's initial status fetch succeeded.
pub open spec fn spec_probes_available(probes: Seq<InitialProbe>) -> bool {
    forall|k: int|
        0 <= k < probes.len() ==> match #[trigger] probes[k] {
            InitialProbe::Node(v) => forall|j: int| 0 <= j < v@.len() ==> (#[trigger] v@[j]) is Some,
            InitialProbe::Generic200Ok(_) => true,
        }
}

/// A name is in a concatenation of name lists exactly when it is in one of
/// the two parts.
proof fn lemma_names_contain_concat(a: Seq<Seq<char>>, b: Seq<Seq<char>>, m: Seq<char>)
    ensures
        spec_names_contain(a + b, m) <==> (spec_names_contain(a, m) || spec_names_contain(b, m)),
{
    if spec_names_contain(a + b, m) {
        let i0 = choose|i: int| 0 <= i < (a + b).len() && (a + b)[i] == m;
        if i0 < a.len() {
            assert(a[i0] == m);
        } else {
            assert(b[i0 - a.len()] == m);
        }
    }
    if spec_names_contain(a, m) {
        let i0 = choose|i: int| 0 <= i < a.len() && a[i] == m;
        assert((a + b)[i0] == m);
    }
    if spec_names_contain(b, m) {
        let i0 = choose|i: int| 0 <= i < b.len() && b[i] == m;
        assert((a + b)[a.len() + i0] == m);
    }
}

/// Concatenating a duplicate-free list of fresh names onto a
/// duplicate-free list stays duplicate-free.
proof fn lemma_no_duplicate_concat(a: Seq<Seq<char>>, b: Seq<Seq<char>>)
    requires
        !spec_has_duplicate(a),
        !spec_has_duplicate(b),
        forall|i: int| 0 <= i < b.len() ==> !spec_names_contain(a, #[trigger] b[i]),
    ensures
        !spec_has_duplicate(a + b),
{
    if spec_has_duplicate(a + b) {
        let (i0, j0) = choose|i: int, j: int| 0 <= i < j < (a + b).len() && (a + b)[i] == (a + b)[j];
        if j0 < a.len() {
            assert(a[i0] == a[j0]);
        } else if i0 >= a.len() {
            assert(b[i0 - a.len()] == b[j0 - a.len()]);
        } else {
            assert(a[i0] == b[j0 - a.len()]);
            assert(spec_names_contain(a, b[j0 - a.len()]));
        }
        assert(false);
    }
}

/// Instance well-formedness only bounds connection indices, so it survives
/// the connection list growing.
proof fn lemma_wf_monotone(insts: Instances, shorter: nat, longer: nat)
    requires
        insts.wf(shorter),
        shorter <= longer,
    ensures
        insts.wf(longer),
{
}

/// A facade built over connections `base .. base + decls` is well-formed
/// once the connection list reaches that length.
proof fn lemma_facade_wf(service: Service, connections_len: nat, base: int, decls: int, f: int)
    requires
        0 <= base,
        0 <= decls,
        base + decls <= connections_len,
        service.instances is Node,
        service.instances.view_seq().len() == decls,
        forall|j: int|
            0 <= j < decls ==> #[trigger] service.instances.spec_conn(j) == base + j,
    ensures
        service.instances.wf(connections_len),
{
    match service.instances {
        Instances::Node(v) => {
            assert forall|i: int|
                0 <= i < v.len() implies (#[trigger] v[i].state.connection as nat)
                < connections_len by {
                assert(service.instances.spec_conn(i) == base + i);
            }
        },
        Instances::Generic200Ok(_) => {},
    }
}

/// The bookkeeping of one registry-construction step: collecting a batch
/// whose names are the expansion of declaration `k` keeps every entry
/// well-formed, keeps the name registry in step with the expanded-name
/// prefix, and turns a collision into a duplicate among all expanded names.
proof fn registry_step_bookkeeping(
    declared: Seq<(String, ServiceConfiguration)>,
    k: int,
    entries_start: Seq<ServiceEntry>,
    entries_after: Seq<ServiceEntry>,
    batch_snap: Seq<(String, Service)>,
    connections: Seq<NodeConnection>,
    outcome: Result<(), ConstructionError>,
)
    requires
        0 <= k < declared.len(),
        spec_batch_names(batch_snap) == spec_names_of(declared[k]),
        forall|m: Seq<char>| #[trigger]
            spec_contains_name(entries_start, m) <==> spec_names_contain(
                spec_expanded_upto(declared, k),
                m,
            ),
        !spec_has_duplicate(spec_expanded_upto(declared, k)),
        forall|s: int|
            0 <= s < entries_start.len() ==> (#[trigger] entries_start[s]).service.instances.wf(
                connections.len() as nat,
            ),
        forall|b2: int|
            0 <= b2 < batch_snap.len() ==> (#[trigger] batch_snap[b2]).1.instances.wf(
                connections.len() as nat,
            ),
        forall|s: int|
            0 <= s < entries_after.len() ==> spec_entry_from(
                entries_start,
                batch_snap,
                #[trigger] entries_after[s],
            ),
        match outcome {
            Err(e) => {
                &&& e is ServiceNameCollision
                &&& exists|b: int|
                    0 <= b < batch_snap.len() && (spec_contains_name(
                        entries_start,
                        (#[trigger] batch_snap[b]).0@,
                    ) || exists|b2: int| 0 <= b2 < b && batch_snap[b2].0@ == batch_snap[b].0@)
            },
            Ok(()) => {
                &&& (forall|b: int|
                    0 <= b < batch_snap.len() ==> !spec_contains_name(
                        entries_start,
                        (#[trigger] batch_snap[b]).0@,
                    ))
                &&& !spec_has_duplicate(spec_batch_names(batch_snap))
                &&& (forall|m: Seq<char>| #[trigger]
                    spec_contains_name(entries_after, m) <==> (spec_contains_name(
                        entries_start,
                        m,
                    ) || spec_names_contain(spec_batch_names(batch_snap), m)))
            },
        },
    ensures
        forall|s: int|
            0 <= s < entries_after.len() ==> (#[trigger] entries_after[s]).service.instances.wf(
                connections.len() as nat,
            ),
        outcome is Ok ==> (forall|m: Seq<char>| #[trigger]
            spec_contains_name(entries_after, m) <==> spec_names_contain(
                spec_expanded_upto(declared, k + 1),
                m,
            )),
        outcome is Ok ==> !spec_has_duplicate(spec_expanded_upto(declared, k + 1)),
        outcome is Err ==> spec_has_duplicate(spec_expanded_names(declared)),
{
    let names_before = spec_expanded_upto(declared, k);
    let step_names = spec_names_of(declared[k]);
    assert(spec_expanded_upto(declared, k + 1) == names_before + step_names);
    assert forall|s: int|
        0 <= s < entries_after.len() implies (#[trigger] entries_after[s]).service.instances.wf(
        connections.len() as nat,
    ) by {
        if exists|s2: int| 0 <= s2 < entries_start.len() && entries_start[s2] == entries_after[s] {
            let s2 = choose|s2: int|
                0 <= s2 < entries_start.len() && entries_start[s2] == entries_after[s];
            assert(entries_start[s2].service.instances.wf(connections.len() as nat));
        } else {
            let b2 = choose|b2: int|
                0 <= b2 < batch_snap.len() && batch_snap[b2].1 == entries_after[s].service;
            assert(batch_snap[b2].1.instances.wf(connections.len() as nat));
        }
    }
    match outcome {
        Ok(()) => {
            assert forall|i: int|
                0 <= i < step_names.len() implies !spec_names_contain(
                names_before,
                #[trigger] step_names[i],
            ) by {
                assert(spec_batch_names(batch_snap)[i] == batch_snap[i].0@);
                assert(!spec_contains_name(entries_start, batch_snap[i].0@));
                assert(spec_contains_name(entries_start, step_names[i]) <==> spec_names_contain(
                    names_before,
                    step_names[i],
                ));
            }
            assert forall|m: Seq<char>| #[trigger]
                spec_contains_name(entries_after, m) <==> spec_names_contain(
                spec_expanded_upto(declared, k + 1),
                m,
            ) by {
                lemma_names_contain_concat(names_before, step_names, m);
            }
            lemma_no_duplicate_concat(names_before, step_names);
        },
        Err(_) => {
            let nb = names_before.len() as int;
            lemma_expanded_prefix(declared, k + 1, declared.len() as int);
            let expanded = spec_expanded_names(declared);
            let b0 = choose|b: int|
                0 <= b < batch_snap.len() && (spec_contains_name(
                    entries_start,
                    (#[trigger] batch_snap[b]).0@,
                ) || exists|b2: int| 0 <= b2 < b && batch_snap[b2].0@ == batch_snap[b].0@);
            assert(spec_batch_names(batch_snap)[b0] == batch_snap[b0].0@);
            assert(step_names[b0] == batch_snap[b0].0@);
            assert(expanded[nb + b0] == step_names[b0]);
            if spec_contains_name(entries_start, batch_snap[b0].0@) {
                assert(spec_names_contain(names_before, step_names[b0]));
                let i0 = choose|i: int|
                    0 <= i < names_before.len() && names_before[i] == step_names[b0];
                assert(spec_expanded_upto(declared, k + 1)[i0] == names_before[i0]);
                assert(expanded[i0] == names_before[i0]);
                assert(spec_has_duplicate(expanded)) by {
                    assert(expanded[i0] == expanded[nb + b0]);
                }
            } else {
                let b2 = choose|b2: int| 0 <= b2 < b0 && batch_snap[b2].0@ == batch_snap[b0].0@;
                assert(spec_batch_names(batch_snap)[b2] == batch_snap[b2].0@);
                assert(step_names[b2] == batch_snap[b2].0@);
                assert(expanded[nb + b2] == step_names[b2]);
                assert(spec_has_duplicate(expanded)) by {
                    assert(expanded[nb + b2] == expanded[nb + b0]);
                }
            }
        },
    }
}

/// Connection bases never decrease along the declarations, and each
/// declaration's records fit below the next base.
proof fn lemma_connection_base_monotone(
    configurations: Seq<(String, ServiceConfiguration)>,
    k1: int,
    k2: int,
)
    requires
        0 <= k1 <= k2,
    ensures
        spec_connection_base(configurations, k1) <= spec_connection_base(configurations, k2),
    decreases k2 - k1,
{
    if k1 < k2 {
        lemma_connection_base_monotone(configurations, k1, k2 - 1);
    }
}

/// Build the registry from the declared services and the outcomes of their
/// initial probes.  Succeeds exactly when every expanded service name is
/// unique and every node declaration's initial status fetch succeeded.
pub fn from_configurations(
    configurations: Vec<(String, ServiceConfiguration)>,
    probes: &Vec<InitialProbe>,
) -> (r: Result<Services, ConstructionError>)
    requires
        spec_probes_match(configurations@, probes@),
    ensures
        match r {
            Ok(services) => {
                &&& services.wf()
                &&& !spec_has_duplicate(spec_expanded_names(configurations@))
                &&& spec_probes_available(probes@)
                &&& forall|m: Seq<char>| #[trigger]
                    spec_contains_name(services.entries@, m) <==> spec_names_contain(
                        spec_expanded_names(configurations@),
                        m,
                    )
                &&& services.connections@.len() == spec_connection_base(
                    configurations@,
                    configurations@.len() as int,
                )
                &&& forall|k2: int|
                    0 <= k2 < configurations@.len() ==> #[trigger] spec_node_decl_connections(
                        configurations@[k2],
                        probes@[k2],
                        services.connections@,
                        spec_connection_base(configurations@, k2),
                    )
                &&& forall|k2: int|
                    0 <= k2 < configurations@.len() ==> #[trigger] spec_declaration_realized(
                        services.entries@,
                        configurations@[k2],
                        probes@[k2],
                        spec_connection_base(configurations@, k2),
                    )
            },
            Err(e) => {
                &&& e is ServiceNameCollision ==> spec_has_duplicate(
                    spec_expanded_names(configurations@),
                )
                &&& e is NodeStatusUnavailable ==> !spec_probes_available(probes@)
            },
        },
{
    let ghost declared = configurations@;
    let total = probes.len();
    let mut remaining = configurations;
    let mut entries: Vec<ServiceEntry> = Vec::new();
    let mut connections: Vec<NodeConnection> = Vec::new();
    let mut failure: Option<ConstructionError> = None;
    let mut k: usize = 0;
    while remaining.len() > 0
        invariant
            k <= total,
            total == declared.len(),
            k + remaining@.len() == declared.len(),
            remaining@ =~= declared.skip(k as int),
            probes@.len() == declared.len(),
            spec_probes_match(declared, probes@),
            spec_sorted_entries(entries@),
            forall|s: int|
                0 <= s < entries@.len() ==> (#[trigger] entries@[s]).service.instances.wf(
                    connections@.len() as nat,
                ),
            match failure {
                None => {
                    &&& (forall|m: Seq<char>| #[trigger]
                        spec_contains_name(entries@, m) <==> spec_names_contain(
                            spec_expanded_upto(declared, k as int),
                            m,
                        ))
                    &&& !spec_has_duplicate(spec_expanded_upto(declared, k as int))
                    &&& (forall|k2: int|
                        0 <= k2 < k ==> match #[trigger] probes@[k2] {
                            InitialProbe::Node(v) => forall|j: int|
                                0 <= j < v@.len() ==> (#[trigger] v@[j]) is Some,
                            InitialProbe::Generic200Ok(_) => true,
                        })
                    &&& connections@.len() == spec_connection_base(declared, k as int)
                    &&& (forall|k2: int|
                        0 <= k2 < k ==> #[trigger] spec_node_decl_connections(
                            declared[k2],
                            probes@[k2],
                            connections@,
                            spec_connection_base(declared, k2),
                        ))
                    &&& (forall|k2: int|
                        0 <= k2 < k ==> #[trigger] spec_declaration_realized(
                            entries@,
                            declared[k2],
                            probes@[k2],
                            spec_connection_base(declared, k2),
                        ))
                },
                Some(e) => {
                    &&& e is ServiceNameCollision ==> spec_has_duplicate(
                        spec_expanded_names(declared),
                    )
                    &&& e is NodeStatusUnavailable ==> !spec_probes_available(probes@)
                },
            },
        decreases remaining@.len(),
    {
        let ghost entries_start = entries@;
        let ghost conns_start = connections@;
        let (service_name, declaration) = remaining.remove(0);
        proof {
            assert(declared.skip(k as int)[0] == declared[k as int]);
        }
        let failed = match &failure {
            Some(_) => true,
            None => false,
        };
        if !failed {
            let ghost names_before = spec_expanded_upto(declared, k as int);
            let ghost step_names = spec_names_of(declared[k as int]);
            let probe = &probes[k];
            match declaration {
                ServiceConfiguration::Generic200Ok { prepend, instances } => {
                    match probe {
                        InitialProbe::Generic200Ok(generic_probes) => {
                            let ghost decl_prepend = prepend@;
                            let ghost decl_instances = instances@;
                            let service = generic_service(prepend, instances, generic_probes);
                            let mut batch: Vec<(String, Service)> = Vec::new();
                            batch.push((service_name, service));
                            let ghost batch_snap = batch@;
                            proof {
                                assert(spec_batch_names(batch_snap) =~= step_names) by {
                                    assert(spec_batch_names(batch_snap)[0] == batch_snap[0].0@);
                                }
                                assert(batch_snap[0].1.instances.wf(connections@.len() as nat));
                            }
                            let outcome = collect_services_from_iter(&mut entries, batch);
                            proof {
                                registry_step_bookkeeping(
                                    declared,
                                    k as int,
                                    entries_start,
                                    entries@,
                                    batch_snap,
                                    connections@,
                                    outcome,
                                );
                                assert(spec_connection_base(declared, k + 1)
                                    == spec_connection_base(declared, k as int));
                                assert(spec_node_decl_connections(
                                    declared[k as int],
                                    probes@[k as int],
                                    connections@,
                                    spec_connection_base(declared, k as int),
                                ));
                            }
                            match outcome {
                                Ok(()) => {
                                    proof {
                                        assert forall|k2: int|
                                            0 <= k2 < k + 1 implies #[trigger] spec_declaration_realized(
                                            entries@,
                                            declared[k2],
                                            probes@[k2],
                                            spec_connection_base(declared, k2),
                                        ) by {
                                            if k2 < k {
                                                lemma_realized_preserved(
                                                    entries_start,
                                                    entries@,
                                                    declared[k2],
                                                    probes@[k2],
                                                    spec_connection_base(declared, k2),
                                                );
                                            } else {
                                                let placed = ServiceEntry {
                                                    name: batch_snap[0].0,
                                                    service: batch_snap[0].1,
                                                };
                                                assert(spec_entry_present(entries@, placed));
                                                let s1 = choose|s: int|
                                                    0 <= s < entries@.len() && entries@[s]
                                                        == placed;
                                                assert((#[trigger] entries@[s1]).name@
                                                    == declared[k as int].0@);
                                                assert(spec_generic_built(
                                                    entries@[s1].service,
                                                    decl_prepend,
                                                    decl_instances,
                                                    generic_probes@,
                                                ));
                                            }
                                        }
                                    }
                                },
                                Err(e) => {
                                    failure = Some(e);
                                },
                            }
                        },
                        InitialProbe::Node(_) => {
                            proof {
                                assert(false);
                            }
                        },
                    }
                },
                ServiceConfiguration::Node { prepend, instances } => {
                    match probe {
                        InitialProbe::Node(node_probes) => {
                            let ghost decl_prepend = prepend@;
                            let ghost decl_instances = instances@;
                            match node_services(
                                service_name,
                                prepend,
                                instances,
                                node_probes,
                                &mut connections,
                            ) {
                                Err(e) => {
                                    proof {
                                        assert(probes@[k as int] is Node);
                                        assert(!spec_probes_available(probes@));
                                    }
                                    failure = Some(e);
                                },
                                Ok(services) => {
                                    let ghost base = conns_start.len() as int;
                                    let ghost decls_len = services.lcd.1.instances.view_seq().len();
                                    proof {
                                        assert(spec_connection_base(declared, k + 1)
                                            == spec_connection_base(declared, k as int)
                                            + decls_len);
                                        assert forall|k2: int|
                                            0 <= k2 < k + 1 implies #[trigger] spec_node_decl_connections(
                                            declared[k2],
                                            probes@[k2],
                                            connections@,
                                            spec_connection_base(declared, k2),
                                        ) by {
                                            let base2 = spec_connection_base(declared, k2);
                                            if k2 < k {
                                                lemma_connection_base_monotone(declared, 0, k2);
                                                lemma_connection_base_monotone(
                                                    declared,
                                                    k2 + 1,
                                                    k as int,
                                                );
                                                assert(spec_node_decl_connections(
                                                    declared[k2],
                                                    probes@[k2],
                                                    conns_start,
                                                    base2,
                                                ));
                                                match (declared[k2].1, probes@[k2]) {
                                                    (
                                                        ServiceConfiguration::Node {
                                                            instances: decls2,
                                                            ..
                                                        },
                                                        InitialProbe::Node(v2),
                                                    ) => {
                                                        assert(spec_connection_base(
                                                            declared,
                                                            k2 + 1,
                                                        ) == base2 + decls2@.len());
                                                        assert forall|j: int|
                                                            0 <= j < decls2@.len() implies
                                                            #[trigger] connections@[base2 + j]
                                                            == conns_start[base2 + j] by {
                                                            assert(0 <= base2 + j
                                                                < conns_start.len());
                                                            assert(connections@[base2 + j]
                                                                == conns_start[base2 + j]);
                                                        }
                                                    },
                                                    _ => {},
                                                }
                                            }
                                        }
                                    }
                                    let mut batch: Vec<(String, Service)> = Vec::new();
                                    batch.push(services.lcd);
                                    batch.push(services.json_rpc);
                                    batch.push(services.grpc);
                                    let ghost batch_snap = batch@;
                                    proof {
                                        assert(spec_batch_names(batch_snap) =~= step_names) by {
                                            assert(spec_batch_names(batch_snap)[0]
                                                == batch_snap[0].0@);
                                            assert(spec_batch_names(batch_snap)[1]
                                                == batch_snap[1].0@);
                                            assert(spec_batch_names(batch_snap)[2]
                                                == batch_snap[2].0@);
                                        }
                                        assert forall|b2: int|
                                            0 <= b2 < batch_snap.len() implies (
                                        #[trigger] batch_snap[b2]).1.instances.wf(
                                            connections@.len() as nat,
                                        ) by {
                                            lemma_facade_wf(
                                                batch_snap[b2].1,
                                                connections@.len() as nat,
                                                base,
                                                decls_len as int,
                                                b2,
                                            );
                                        }
                                        assert forall|s: int|
                                            0 <= s < entries@.len() implies (
                                        #[trigger] entries@[s]).service.instances.wf(
                                            connections@.len() as nat,
                                        ) by {
                                            lemma_wf_monotone(
                                                entries@[s].service.instances,
                                                conns_start.len() as nat,
                                                connections@.len() as nat,
                                            );
                                        }
                                    }
                                    let outcome = collect_services_from_iter(&mut entries, batch);
                                    proof {
                                        registry_step_bookkeeping(
                                            declared,
                                            k as int,
                                            entries_start,
                                            entries@,
                                            batch_snap,
                                            connections@,
                                            outcome,
                                        );
                                    }
                                    match outcome {
                                        Ok(()) => {
                                            proof {
                                                assert forall|k2: int|
                                                    0 <= k2 < k + 1 implies #[trigger] spec_declaration_realized(
                                                    entries@,
                                                    declared[k2],
                                                    probes@[k2],
                                                    spec_connection_base(declared, k2),
                                                ) by {
                                                    if k2 < k {
                                                        lemma_realized_preserved(
                                                            entries_start,
                                                            entries@,
                                                            declared[k2],
                                                            probes@[k2],
                                                            spec_connection_base(declared, k2),
                                                        );
                                                    } else {
                                                        let placed_lcd = ServiceEntry {
                                                            name: batch_snap[0].0,
                                                            service: batch_snap[0].1,
                                                        };
                                                        assert(spec_entry_present(
                                                            entries@,
                                                            placed_lcd,
                                                        ));
                                                        let s1 = choose|s: int|
                                                            0 <= s < entries@.len() && entries@[s]
                                                                == placed_lcd;
                                                        assert((#[trigger] entries@[s1]).name@
                                                            == declared[k as int].0@ + "_lcd"@);
                                                        assert(spec_node_facade(
                                                            entries@[s1].service,
                                                            decl_prepend,
                                                            decl_instances,
                                                            base,
                                                            0,
                                                        ));
                                                        let placed_rpc = ServiceEntry {
                                                            name: batch_snap[1].0,
                                                            service: batch_snap[1].1,
                                                        };
                                                        assert(spec_entry_present(
                                                            entries@,
                                                            placed_rpc,
                                                        ));
                                                        let s2 = choose|s: int|
                                                            0 <= s < entries@.len() && entries@[s]
                                                                == placed_rpc;
                                                        assert((#[trigger] entries@[s2]).name@
                                                            == declared[k as int].0@ + "_rpc"@);
                                                        assert(spec_node_facade(
                                                            entries@[s2].service,
                                                            decl_prepend,
                                                            decl_instances,
                                                            base,
                                                            1,
                                                        ));
                                                        let placed_grpc = ServiceEntry {
                                                            name: batch_snap[2].0,
                                                            service: batch_snap[2].1,
                                                        };
                                                        assert(spec_entry_present(
                                                            entries@,
                                                            placed_grpc,
                                                        ));
                                                        let s3 = choose|s: int|
                                                            0 <= s < entries@.len() && entries@[s]
                                                                == placed_grpc;
                                                        assert((#[trigger] entries@[s3]).name@
                                                            == declared[k as int].0@ + "_grpc"@);
                                                        assert(spec_node_facade(
                                                            entries@[s3].service,
                                                            decl_prepend,
                                                            decl_instances,
                                                            base,
                                                            2,
                                                        ));
                                                    }
                                                }
                                            }
                                        },
                                        Err(e) => {
                                            failure = Some(e);
                                        },
                                    }
                                },
                            }
                        },
                        InitialProbe::Generic200Ok(_) => {
                            proof {
                                assert(false);
                            }
                        },
                    }
                },
            }
        }
        k = k + 1;
        proof {
            assert(remaining@ =~= declared.skip(k as int));
        }
    }
    match failure {
        Some(e) => Err(e),
        None => {
            proof {
                assert(k == declared.len());
            }
            Ok(Services { entries, connections })
        },
    }
}

} // verus!
