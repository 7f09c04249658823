//! What is decided when the program starts.
use vstd::prelude::*;

use crate::control_shell::{
    connect_forward, connect_spec_of, proto_in, serve_forward, serve_spec_of,
};
use crate::controller::{
    fresh_handle, Direction, ForwardController, ForwardError, ForwardSpec, ForwardSpecView,
    HandleView,
};
use crate::forward_args::{forwards_in, room_in, split_serve_args};
use crate::identity::{generate_room_id, is_lower_hex};
use crate::model::{lemma_views_push, views};
use crate::session::add_error;
use crate::text;
use crate::text::texts;

verus! {

/// The kind of messages that are logged, by how often `--verbose` was given.
pub open spec fn filter_name(verbose: u8) -> Seq<char> {
    if verbose == 0 {
        "error"@
    } else if verbose == 1 {
        "info"@
    } else {
        "debug"@
    }
}

/// The kind of messages that are logged.
pub fn log_filter(verbose: u8) -> (r: &'static str)
    ensures
        r@ == filter_name(verbose),
{
    match verbose {
        0 => "error",
        1 => "info",
        _ => "debug",
    }
}

/// An id in the form of those that are made at random.
pub open spec fn is_room_id(s: Seq<char>) -> bool {
    s.len() == 8 && forall|i: int| 0 <= i < 8 ==> is_lower_hex(#[trigger] s[i])
}

/// The room of a session, and whether it is a new one.
pub struct Room {
    pub id: String,
    pub fresh: bool,
}

/// The room that was asked for, or else a new one.
pub fn room_or_new(room_id: Option<&str>) -> (r: Room)
    ensures
        match room_id {
            Some(id) => r.id@ == id@ && !r.fresh,
            None => is_room_id(r.id@) && r.fresh,
        },
{
    match room_id {
        Some(id) => Room { id: text::copy(id), fresh: false },
        None => Room { id: generate_room_id(), fresh: true },
    }
}

/// What `serve` is to do.
pub struct ServePlan {
    pub room: Room,
    pub forwards: Vec<String>,
    /// There is a command to run.
    pub runs_command: bool,
}

impl ServePlan {
    /// Neither a command nor a forward was given.
    pub fn is_idle(&self) -> (r: bool)
        ensures
            r == (!self.runs_command && self.forwards@.len() == 0),
    {
        !self.runs_command && self.forwards.len() == 0
    }
}

/// Reads the arguments of `serve`. The first one names the room unless it is a
/// forward; without a room, or with an empty name, a new one is made.
pub fn plan_serve(args: &[String], command: &[String]) -> (r: ServePlan)
    ensures
        ({
            let named = room_in(texts(args@));
            &&& named is Some && named->0.len() > 0 ==> r.room.id@ == named->0 && !r.room.fresh
            &&& !(named is Some && named->0.len() > 0) ==> is_room_id(r.room.id@) && r.room.fresh
            &&& texts(r.forwards@) == forwards_in(texts(args@))
            &&& r.runs_command == (command@.len() > 0)
        }),
{
    let (room_id, forwards) = split_serve_args(args);
    let room = match room_id {
        Some(id) => if id.as_str().unicode_len() > 0 {
            Room { id, fresh: false }
        } else {
            room_or_new(None)
        },
        None => room_or_new(None),
    };
    ServePlan { room, forwards, runs_command: command.len() > 0 }
}

/// The forward of an argument of `serve` or `connect`.
pub open spec fn forward_for(direction: Direction, arg: Seq<char>) -> ForwardSpecView {
    match direction {
        Direction::Serve => serve_forward(arg, proto_in(arg)),
        Direction::Connect => connect_forward(arg, proto_in(arg)),
    }
}

/// The forwards after those of the arguments were added.
pub open spec fn all_added(
    m: Map<Seq<char>, HandleView>,
    direction: Direction,
    args: Seq<Seq<char>>,
) -> Map<Seq<char>, HandleView>
    decreases args.len(),
{
    if args.len() == 0 {
        m
    } else {
        let spec = forward_for(direction, args.last());
        all_added(m, direction, args.drop_last()).insert(spec.target, fresh_handle(spec))
    }
}

/// Every forward of the arguments can be added after those before it.
pub open spec fn can_be_added(
    m: Map<Seq<char>, HandleView>,
    direction: Direction,
    args: Seq<Seq<char>>,
) -> bool
    decreases args.len(),
{
    args.len() == 0 || {
        &&& can_be_added(m, direction, args.drop_last())
        &&& add_error(
            all_added(m, direction, args.drop_last()),
            forward_for(direction, args.last()).target,
        ) is None
    }
}

proof fn lemma_can_be_added_before(
    m: Map<Seq<char>, HandleView>,
    direction: Direction,
    args: Seq<Seq<char>>,
    n: int,
)
    requires
        can_be_added(m, direction, args),
        0 <= n <= args.len(),
    ensures
        can_be_added(m, direction, args.take(n)),
    decreases args.len(),
{
    if n < args.len() {
        lemma_can_be_added_before(m, direction, args.drop_last(), n);
        assert(args.drop_last().take(n) =~= args.take(n));
    } else {
        assert(args.take(n) =~= args);
    }
}

/// Adds the forwards of the arguments, up to the first that cannot be added.
/// Gives those that are to be started, or why one cannot be added.
pub fn add_forwards(controller: &mut ForwardController, direction: Direction, args: &Vec<String>)
    -> (r: Result<Vec<ForwardSpec>, ForwardError>)
    ensures
        r is Ok <==> can_be_added(old(controller)@, direction, texts(args@)),
        match r {
            Ok(specs) => {
                &&& final(controller)@ == all_added(old(controller)@, direction, texts(args@))
                &&& views(specs@) == texts(args@).map_values(
                    |a: Seq<char>| forward_for(direction, a),
                )
            },
            Err(e) => exists|i: int|
                {
                    let done = all_added(old(controller)@, direction, texts(args@).take(i));
                    &&& 0 <= i < args@.len()
                    &&& can_be_added(old(controller)@, direction, texts(args@).take(i))
                    &&& add_error(done, forward_for(direction, (#[trigger] args@[i])@).target)
                        == Some(e.text())
                    &&& final(controller)@ == done
                },
        },
{
    let ghost all = texts(args@);
    let ghost specs = all.map_values(|a: Seq<char>| forward_for(direction, a));
    let ghost start = controller@;
    let mut out: Vec<ForwardSpec> = Vec::new();
    let mut i: usize = 0;
    assert(all.take(0) =~= Seq::empty());
    while i < args.len()
        invariant
            i <= args@.len(),
            all == texts(args@),
            start == old(controller)@,
            specs == all.map_values(|a: Seq<char>| forward_for(direction, a)),
            controller@ == all_added(start, direction, all.take(i as int)),
            can_be_added(start, direction, all.take(i as int)),
            views(out@) == specs.take(i as int),
        decreases args@.len() - i,
    {
        let spec = match direction {
            Direction::Serve => serve_spec_of(args[i].as_str()),
            Direction::Connect => connect_spec_of(args[i].as_str()),
        };
        let ghost head = all.take(i + 1);
        proof {
            assert(all[i as int] == args@[i as int]@);
            assert(head.drop_last() =~= all.take(i as int));
            assert(head.last() == all[i as int]);
        }
        match controller.add_forward(&spec) {
            Err(e) => {
                proof {
                    if can_be_added(start, direction, all) {
                        lemma_can_be_added_before(start, direction, all, i + 1);
                    }
                }
                return Err(e);
            },
            Ok(_) => {},
        }
        proof {
            lemma_views_push(out@, spec);
        }
        out.push(spec);
        i = i + 1;
        assert(views(out@) =~= specs.take(i as int));
    }
    assert(all.take(i as int) =~= all);
    assert(specs.take(i as int) =~= specs);
    Ok(out)
}

/// Forwards that can all be added are all there afterwards, each under its own
/// target.
pub proof fn law_every_argument_is_added(
    m: Map<Seq<char>, HandleView>,
    direction: Direction,
    args: Seq<Seq<char>>,
    i: int,
)
    requires
        can_be_added(m, direction, args),
        0 <= i < args.len(),
    ensures
        ({
            let spec = forward_for(direction, args[i]);
            let after = all_added(m, direction, args);
            after.contains_key(spec.target) && after[spec.target] == fresh_handle(spec)
        }),
    decreases args.len(),
{
    if i < args.len() - 1 {
        law_every_argument_is_added(m, direction, args.drop_last(), i);
        assert(args.drop_last()[i] == args[i]);
    }
}

/// The targets of the forwards of the arguments, in their order.
pub open spec fn targets_of(direction: Direction, args: Seq<Seq<char>>) -> Seq<Seq<char>> {
    args.map_values(|arg: Seq<char>| forward_for(direction, arg).target)
}

/// The forwards of the arguments can all be added exactly where each has a target, no two
/// have the same one, and none was there before. The forwards that were there stay as they
/// are, and no other ones come.
pub proof fn law_arguments_are_added_together(
    m: Map<Seq<char>, HandleView>,
    direction: Direction,
    args: Seq<Seq<char>>,
    other: Seq<char>,
)
    ensures
        can_be_added(m, direction, args) <==> {
            let targets = targets_of(direction, args);
            &&& targets.no_duplicates()
            &&& forall|i: int|
                0 <= i < targets.len() ==> (#[trigger] targets[i]).len() > 0 && !m.contains_key(
                    targets[i],
                )
        },
        all_added(m, direction, args).contains_key(other) <==> m.contains_key(other)
            || targets_of(direction, args).contains(other),
        m.contains_key(other) && !targets_of(direction, args).contains(other) ==> all_added(
            m,
            direction,
            args,
        )[other] == m[other],
    decreases args.len(),
{
    lemma_added_targets(m, direction, args, other);
    if args.len() > 0 {
        let rest = args.drop_last();
        let last = forward_for(direction, args.last()).target;
        let before = targets_of(direction, rest);
        let targets = targets_of(direction, args);
        law_arguments_are_added_together(m, direction, rest, last);
        assert(targets =~= before.push(last));
        assert(targets[targets.len() - 1] == last);
        if can_be_added(m, direction, args) {
            assert forall|i: int| 0 <= i < targets.len() implies (#[trigger] targets[i]).len() > 0
                && !m.contains_key(targets[i]) by {
                if i < before.len() {
                    assert(targets[i] == before[i]);
                }
            }
            assert(!before.contains(last));
            assert forall|i: int, j: int|
                0 <= i < targets.len() && 0 <= j < targets.len() && i != j implies targets[i]
                != targets[j] by {
                if i < before.len() {
                    assert(before.contains(before[i]));
                }
                if j < before.len() {
                    assert(before.contains(before[j]));
                }
            }
        }
        if targets.no_duplicates() && (forall|i: int|
            0 <= i < targets.len() ==> (#[trigger] targets[i]).len() > 0 && !m.contains_key(
                targets[i],
            )) {
            assert forall|i: int| 0 <= i < before.len() implies (#[trigger] before[i]).len() > 0
                && !m.contains_key(before[i]) by {
                assert(targets[i] == before[i]);
            }
            assert forall|i: int, j: int|
                0 <= i < before.len() && 0 <= j < before.len() && i != j implies before[i]
                != before[j] by {
                assert(targets[i] == before[i] && targets[j] == before[j]);
            }
            if before.contains(last) {
                let i = choose|i: int| 0 <= i < before.len() && before[i] == last;
                assert(targets[i] == targets[targets.len() - 1]);
            }
        }
    }
}

proof fn lemma_added_targets(
    m: Map<Seq<char>, HandleView>,
    direction: Direction,
    args: Seq<Seq<char>>,
    other: Seq<char>,
)
    ensures
        all_added(m, direction, args).contains_key(other) <==> m.contains_key(other)
            || targets_of(direction, args).contains(other),
        m.contains_key(other) && !targets_of(direction, args).contains(other) ==> all_added(
            m,
            direction,
            args,
        )[other] == m[other],
    decreases args.len(),
{
    let targets = targets_of(direction, args);
    if args.len() > 0 {
        let rest = args.drop_last();
        let last = forward_for(direction, args.last()).target;
        let before = targets_of(direction, rest);
        lemma_added_targets(m, direction, rest, other);
        assert(targets =~= before.push(last));
        assert(targets[targets.len() - 1] == last);
        if before.contains(other) {
            let i = choose|i: int| 0 <= i < before.len() && before[i] == other;
            assert(targets[i] == other);
        }
        if targets.contains(other) && other != last {
            let i = choose|i: int| 0 <= i < targets.len() && targets[i] == other;
            assert(before[i] == other);
        }
    }
}

/// More is logged the more often it is asked for: errors, then what happens, then all.
pub proof fn law_more_is_logged_on_demand(verbose: u8)
    ensures
        verbose == 0 ==> filter_name(verbose) == "error"@,
        verbose == 1 ==> filter_name(verbose) == "info"@,
        verbose >= 2 ==> filter_name(verbose) == "debug"@,
{
}

/// An argument of either command stands for a forward of that side.
pub proof fn law_arguments_take_their_side(arg: Seq<char>)
    ensures
        forward_for(Direction::Serve, arg).direction is Serve,
        forward_for(Direction::Connect, arg).direction is Connect,
        forward_for(Direction::Serve, arg) == serve_forward(arg, proto_in(arg)),
        forward_for(Direction::Connect, arg) == connect_forward(arg, proto_in(arg)),
{
}

/// The id of a new room is eight digits, each from `0` to `9` or from `a` to `f`.
pub proof fn law_room_ids_are_eight_digits(s: Seq<char>)
    ensures
        is_room_id(s) <==> s.len() == 8 && forall|i: int|
            0 <= i < 8 ==> '0' <= #[trigger] s[i] <= '9' || 'a' <= s[i] <= 'f',
{
}

} // verus!
