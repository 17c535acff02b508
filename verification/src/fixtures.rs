//! Parameter sets of the sample parts.
use vstd::prelude::*;
use crate::param_graph::{entries_view, ids_of, EntryView, ParamGraph, ParameterEntry};

verus! {

/// A graph holding exactly the given parameters, in order, with no
/// dependencies.
fn graph_of(entries: Vec<ParameterEntry>) -> (g: ParamGraph)
    requires
        ids_of(entries_view(entries@)).no_duplicates(),
    ensures
        g.wf(),
        g@.entries == entries_view(entries@),
        g@.dependencies.len() == 0,
{
    let mut g = ParamGraph::new();
    let mut i: usize = 0;
    while i < entries.len()
        invariant
            i <= entries.len(),
            g.wf(),
            ids_of(entries_view(entries@)).no_duplicates(),
            g@.entries == entries_view(entries@).subrange(0, i as int),
            g@.dependencies.len() == 0,
        decreases entries.len() - i,
    {
        let entry = ParameterEntry {
            id: entries[i].id.clone(),
            name: entries[i].name.clone(),
            expr: entries[i].expr.clone(),
        };
        proof {
            let ids = ids_of(entries_view(entries@));
            if ids_of(g@.entries).contains(entry.id@) {
                let k = ids_of(g@.entries).index_of(entry.id@);
                assert(ids[k] == ids[i as int]);
            }
        }
        let r = g.add_parameter(entry);
        assert(r is Ok);
        assert(entries_view(entries@).subrange(0, i + 1) =~= entries_view(entries@).subrange(
            0,
            i as int,
        ).push(entries_view(entries@)[i as int]));
        i = i + 1;
    }
    assert(entries_view(entries@).subrange(0, i as int) =~= entries_view(entries@));
    g
}

/// Two texts differ; comparing lengths first settles most pairs.
spec fn texts_differ(a: Seq<char>, b: Seq<char>) -> bool {
    a.len() != b.len() || a != b
}

/// The first `k` ids all differ from the one at `j`.
spec fn differs_from_first(ids: Seq<Seq<char>>, j: int, k: int) -> bool
    decreases k,
{
    k <= 0 || (texts_differ(ids[k - 1], ids[j]) && differs_from_first(ids, j, k - 1))
}

/// The first `n` ids are pairwise different.
spec fn first_distinct(ids: Seq<Seq<char>>, n: int) -> bool
    decreases n,
{
    n <= 0 || (differs_from_first(ids, n - 1, n - 1) && first_distinct(ids, n - 1))
}

proof fn lemma_differs_from_first(ids: Seq<Seq<char>>, j: int, k: int, i: int)
    requires
        differs_from_first(ids, j, k),
        0 <= i < k,
    ensures
        ids[i] != ids[j],
    decreases k,
{
    if i < k - 1 {
        lemma_differs_from_first(ids, j, k - 1, i);
    }
}

proof fn lemma_first_distinct(ids: Seq<Seq<char>>, n: int)
    requires
        first_distinct(ids, n),
        n <= ids.len(),
    ensures
        forall|a: int, b: int| 0 <= a < b < n ==> ids[a] != ids[b],
    decreases n,
{
    if n > 0 {
        lemma_first_distinct(ids, n - 1);
        assert forall|a: int, b: int| 0 <= a < b < n implies ids[a] != ids[b] by {
            if b == n - 1 {
                lemma_differs_from_first(ids, n - 1, n - 1, a);
            }
        }
    }
}

/// Pairwise difference, checked pair by pair on a list of known ids.
proof fn lemma_distinct_ids(ids: Seq<Seq<char>>)
    requires
        first_distinct(ids, ids.len() as int),
    ensures
        ids.no_duplicates(),
{
    lemma_first_distinct(ids, ids.len() as int);
}

pub open spec fn bracket_spec() -> Seq<EntryView> {
    seq![
        ("param:width"@, "width"@, "80 mm"@),
        ("param:height"@, "height"@, "60 mm"@),
        ("param:thickness"@, "thickness"@, "6 mm"@),
        ("param:hole_diameter"@, "hole_diameter"@, "10 mm"@),
        ("param:fillet_radius"@, "fillet_radius"@, "1 mm"@),
        ("param:chamfer_distance"@, "chamfer_distance"@, "0.5 mm"@),
        ("param:hole_pitch"@, "hole_pitch"@, "20 mm"@),
        ("param:boss_height"@, "boss_height"@, "12 mm"@),
    ]
}

/// Default bracket parameters for samples and fixtures.
pub fn bracket_parameters() -> (g: ParamGraph)
    ensures
        g.wf(),
        g@.entries == bracket_spec(),
        g@.dependencies.len() == 0,
{
    let entries = vec![
        ParameterEntry::new("param:width", "width", "80 mm"),
        ParameterEntry::new("param:height", "height", "60 mm"),
        ParameterEntry::new("param:thickness", "thickness", "6 mm"),
        ParameterEntry::new("param:hole_diameter", "hole_diameter", "10 mm"),
        ParameterEntry::new("param:fillet_radius", "fillet_radius", "1 mm"),
        ParameterEntry::new("param:chamfer_distance", "chamfer_distance", "0.5 mm"),
        ParameterEntry::new("param:hole_pitch", "hole_pitch", "20 mm"),
        ParameterEntry::new("param:boss_height", "boss_height", "12 mm"),
    ];
    proof {
        reveal_strlit("param:width");
        reveal_strlit("param:height");
        reveal_strlit("param:thickness");
        reveal_strlit("param:hole_diameter");
        reveal_strlit("param:fillet_radius");
        reveal_strlit("param:chamfer_distance");
        reveal_strlit("param:hole_pitch");
        reveal_strlit("param:boss_height");
        assert(entries_view(entries@) =~= bracket_spec());
        assert("param:hole_diameter"@[6] != "param:fillet_radius"@[6]);
        assert(first_distinct(ids_of(bracket_spec()), 8)) by {
            reveal_with_fuel(first_distinct, 9);
            reveal_with_fuel(differs_from_first, 9);
        }
        lemma_distinct_ids(ids_of(bracket_spec()));
    }
    graph_of(entries)
}

pub open spec fn bearing_carrier_spec() -> Seq<EntryView> {
    seq![
        ("param:width"@, "width"@, "96 mm"@),
        ("param:height"@, "height"@, "72 mm"@),
        ("param:thickness"@, "thickness"@, "8 mm"@),
        ("param:boss_outer_diameter"@, "boss_outer_diameter"@, "38 mm"@),
        ("param:bore_diameter"@, "bore_diameter"@, "18 mm"@),
        ("param:boss_height"@, "boss_height"@, "14 mm"@),
        ("param:bolt_hole_diameter"@, "bolt_hole_diameter"@, "5.5 mm"@),
    ]
}

/// Parameters for the multi-feature bearing carrier sample.
pub fn bearing_carrier_parameters() -> (g: ParamGraph)
    ensures
        g.wf(),
        g@.entries == bearing_carrier_spec(),
        g@.dependencies.len() == 0,
{
    let entries = vec![
        ParameterEntry::new("param:width", "width", "96 mm"),
        ParameterEntry::new("param:height", "height", "72 mm"),
        ParameterEntry::new("param:thickness", "thickness", "8 mm"),
        ParameterEntry::new("param:boss_outer_diameter", "boss_outer_diameter", "38 mm"),
        ParameterEntry::new("param:bore_diameter", "bore_diameter", "18 mm"),
        ParameterEntry::new("param:boss_height", "boss_height", "14 mm"),
        ParameterEntry::new("param:bolt_hole_diameter", "bolt_hole_diameter", "5.5 mm"),
    ];
    proof {
        reveal_strlit("param:width");
        reveal_strlit("param:height");
        reveal_strlit("param:thickness");
        reveal_strlit("param:boss_outer_diameter");
        reveal_strlit("param:bore_diameter");
        reveal_strlit("param:boss_height");
        reveal_strlit("param:bolt_hole_diameter");
        assert(entries_view(entries@) =~= bearing_carrier_spec());
        assert(first_distinct(ids_of(bearing_carrier_spec()), 7)) by {
            reveal_with_fuel(first_distinct, 8);
            reveal_with_fuel(differs_from_first, 8);
        }
        lemma_distinct_ids(ids_of(bearing_carrier_spec()));
    }
    graph_of(entries)
}

pub open spec fn robot_joint_housing_spec() -> Seq<EntryView> {
    seq![
        ("param:width"@, "width"@, "140 mm"@),
        ("param:height"@, "height"@, "110 mm"@),
        ("param:base_thickness"@, "base_thickness"@, "10 mm"@),
        ("param:lower_hub_diameter"@, "lower_hub_diameter"@, "72 mm"@),
        ("param:lower_hub_height"@, "lower_hub_height"@, "20 mm"@),
        ("param:upper_hub_diameter"@, "upper_hub_diameter"@, "52 mm"@),
        ("param:upper_hub_height"@, "upper_hub_height"@, "32 mm"@),
        ("param:shaft_diameter"@, "shaft_diameter"@, "24 mm"@),
        ("param:counterbore_diameter"@, "counterbore_diameter"@, "38 mm"@),
        ("param:counterbore_depth"@, "counterbore_depth"@, "8 mm"@),
        ("param:bolt_circle_radius"@, "bolt_circle_radius"@, "45 mm"@),
        ("param:bolt_hole_diameter"@, "bolt_hole_diameter"@, "6.2 mm"@),
        ("param:rib_length"@, "rib_length"@, "38 mm"@),
        ("param:rib_thickness"@, "rib_thickness"@, "7 mm"@),
        ("param:rib_height"@, "rib_height"@, "15 mm"@),
        ("param:mounting_ear_width"@, "mounting_ear_width"@, "22 mm"@),
        ("param:mounting_ear_depth"@, "mounting_ear_depth"@, "34 mm"@),
        ("param:mounting_ear_height"@, "mounting_ear_height"@, "16 mm"@),
        ("param:mounting_hole_diameter"@, "mounting_hole_diameter"@, "9 mm"@),
    ]
}

/// Parameters for the robot-joint actuator housing flagship sample.
pub fn robot_joint_housing_parameters() -> (g: ParamGraph)
    ensures
        g.wf(),
        g@.entries == robot_joint_housing_spec(),
        g@.dependencies.len() == 0,
{
    let entries = vec![
        ParameterEntry::new("param:width", "width", "140 mm"),
        ParameterEntry::new("param:height", "height", "110 mm"),
        ParameterEntry::new("param:base_thickness", "base_thickness", "10 mm"),
        ParameterEntry::new("param:lower_hub_diameter", "lower_hub_diameter", "72 mm"),
        ParameterEntry::new("param:lower_hub_height", "lower_hub_height", "20 mm"),
        ParameterEntry::new("param:upper_hub_diameter", "upper_hub_diameter", "52 mm"),
        ParameterEntry::new("param:upper_hub_height", "upper_hub_height", "32 mm"),
        ParameterEntry::new("param:shaft_diameter", "shaft_diameter", "24 mm"),
        ParameterEntry::new("param:counterbore_diameter", "counterbore_diameter", "38 mm"),
        ParameterEntry::new("param:counterbore_depth", "counterbore_depth", "8 mm"),
        ParameterEntry::new("param:bolt_circle_radius", "bolt_circle_radius", "45 mm"),
        ParameterEntry::new("param:bolt_hole_diameter", "bolt_hole_diameter", "6.2 mm"),
        ParameterEntry::new("param:rib_length", "rib_length", "38 mm"),
        ParameterEntry::new("param:rib_thickness", "rib_thickness", "7 mm"),
        ParameterEntry::new("param:rib_height", "rib_height", "15 mm"),
        ParameterEntry::new("param:mounting_ear_width", "mounting_ear_width", "22 mm"),
        ParameterEntry::new("param:mounting_ear_depth", "mounting_ear_depth", "34 mm"),
        ParameterEntry::new("param:mounting_ear_height", "mounting_ear_height", "16 mm"),
        ParameterEntry::new("param:mounting_hole_diameter", "mounting_hole_diameter", "9 mm"),
    ];
    proof {
        reveal_strlit("param:width");
        reveal_strlit("param:height");
        reveal_strlit("param:base_thickness");
        reveal_strlit("param:lower_hub_diameter");
        reveal_strlit("param:lower_hub_height");
        reveal_strlit("param:upper_hub_diameter");
        reveal_strlit("param:upper_hub_height");
        reveal_strlit("param:shaft_diameter");
        reveal_strlit("param:counterbore_diameter");
        reveal_strlit("param:counterbore_depth");
        reveal_strlit("param:bolt_circle_radius");
        reveal_strlit("param:bolt_hole_diameter");
        reveal_strlit("param:rib_length");
        reveal_strlit("param:rib_thickness");
        reveal_strlit("param:rib_height");
        reveal_strlit("param:mounting_ear_width");
        reveal_strlit("param:mounting_ear_depth");
        reveal_strlit("param:mounting_ear_height");
        reveal_strlit("param:mounting_hole_diameter");
        assert(entries_view(entries@) =~= robot_joint_housing_spec());
        assert("param:base_thickness"@[6] != "param:shaft_diameter"@[6]);
        assert("param:lower_hub_diameter"@[6] != "param:upper_hub_diameter"@[6]);
        assert("param:lower_hub_diameter"@[6] != "param:bolt_circle_radius"@[6]);
        assert("param:lower_hub_diameter"@[6] != "param:bolt_hole_diameter"@[6]);
        assert("param:lower_hub_diameter"@[6] != "param:mounting_ear_width"@[6]);
        assert("param:lower_hub_diameter"@[6] != "param:mounting_ear_depth"@[6]);
        assert("param:lower_hub_height"@[6] != "param:upper_hub_height"@[6]);
        assert("param:upper_hub_diameter"@[6] != "param:bolt_circle_radius"@[6]);
        assert("param:upper_hub_diameter"@[6] != "param:bolt_hole_diameter"@[6]);
        assert("param:upper_hub_diameter"@[6] != "param:mounting_ear_width"@[6]);
        assert("param:upper_hub_diameter"@[6] != "param:mounting_ear_depth"@[6]);
        assert("param:bolt_circle_radius"@[11] != "param:bolt_hole_diameter"@[11]);
        assert("param:bolt_circle_radius"@[6] != "param:mounting_ear_width"@[6]);
        assert("param:bolt_circle_radius"@[6] != "param:mounting_ear_depth"@[6]);
        assert("param:bolt_hole_diameter"@[6] != "param:mounting_ear_width"@[6]);
        assert("param:bolt_hole_diameter"@[6] != "param:mounting_ear_depth"@[6]);
        assert("param:rib_length"@[10] != "param:rib_height"@[10]);
        assert("param:mounting_ear_width"@[19] != "param:mounting_ear_depth"@[19]);
        assert(first_distinct(ids_of(robot_joint_housing_spec()), 19)) by {
            reveal_with_fuel(first_distinct, 20);
            reveal_with_fuel(differs_from_first, 20);
        }
        lemma_distinct_ids(ids_of(robot_joint_housing_spec()));
    }
    graph_of(entries)
}

pub open spec fn robot_arm_base_spec() -> Seq<EntryView> {
    seq![
        ("param:base_plate_diameter"@, "base_plate_diameter"@, "120 mm"@),
        ("param:base_plate_thickness"@, "base_plate_thickness"@, "10 mm"@),
        ("param:turret_diameter"@, "turret_diameter"@, "44 mm"@),
        ("param:turret_height"@, "turret_height"@, "30 mm"@),
        ("param:bolt_circle_radius"@, "bolt_circle_radius"@, "50 mm"@),
        ("param:bolt_hole_diameter"@, "bolt_hole_diameter"@, "8 mm"@),
    ]
}

/// Parameters for the robot-arm base pedestal part.
pub fn robot_arm_base_parameters() -> (g: ParamGraph)
    ensures
        g.wf(),
        g@.entries == robot_arm_base_spec(),
        g@.dependencies.len() == 0,
{
    let entries = vec![
        ParameterEntry::new("param:base_plate_diameter", "base_plate_diameter", "120 mm"),
        ParameterEntry::new("param:base_plate_thickness", "base_plate_thickness", "10 mm"),
        ParameterEntry::new("param:turret_diameter", "turret_diameter", "44 mm"),
        ParameterEntry::new("param:turret_height", "turret_height", "30 mm"),
        ParameterEntry::new("param:bolt_circle_radius", "bolt_circle_radius", "50 mm"),
        ParameterEntry::new("param:bolt_hole_diameter", "bolt_hole_diameter", "8 mm"),
    ];
    proof {
        reveal_strlit("param:base_plate_diameter");
        reveal_strlit("param:base_plate_thickness");
        reveal_strlit("param:turret_diameter");
        reveal_strlit("param:turret_height");
        reveal_strlit("param:bolt_circle_radius");
        reveal_strlit("param:bolt_hole_diameter");
        assert(entries_view(entries@) =~= robot_arm_base_spec());
        assert("param:bolt_circle_radius"@[11] != "param:bolt_hole_diameter"@[11]);
        assert(first_distinct(ids_of(robot_arm_base_spec()), 6)) by {
            reveal_with_fuel(first_distinct, 7);
            reveal_with_fuel(differs_from_first, 7);
        }
        lemma_distinct_ids(ids_of(robot_arm_base_spec()));
    }
    graph_of(entries)
}

pub open spec fn robot_arm_upper_arm_spec() -> Seq<EntryView> {
    seq![
        ("param:upper_arm_length"@, "upper_arm_length"@, "160 mm"@),
        ("param:upper_arm_width"@, "upper_arm_width"@, "26 mm"@),
        ("param:upper_arm_thickness"@, "upper_arm_thickness"@, "14 mm"@),
        ("param:shoulder_hub_diameter"@, "shoulder_hub_diameter"@, "36 mm"@),
        ("param:shoulder_bore_diameter"@, "shoulder_bore_diameter"@, "14 mm"@),
        ("param:upper_arm_elbow_hub_diameter"@, "upper_arm_elbow_hub_diameter"@, "32 mm"@),
        ("param:upper_arm_elbow_bore_diameter"@, "upper_arm_elbow_bore_diameter"@, "12 mm"@),
    ]
}

/// Parameters for the robot-arm upper link part.
pub fn robot_arm_upper_arm_parameters() -> (g: ParamGraph)
    ensures
        g.wf(),
        g@.entries == robot_arm_upper_arm_spec(),
        g@.dependencies.len() == 0,
{
    let entries = vec![
        ParameterEntry::new("param:upper_arm_length", "upper_arm_length", "160 mm"),
        ParameterEntry::new("param:upper_arm_width", "upper_arm_width", "26 mm"),
        ParameterEntry::new("param:upper_arm_thickness", "upper_arm_thickness", "14 mm"),
        ParameterEntry::new("param:shoulder_hub_diameter", "shoulder_hub_diameter", "36 mm"),
        ParameterEntry::new("param:shoulder_bore_diameter", "shoulder_bore_diameter", "14 mm"),
        ParameterEntry::new("param:upper_arm_elbow_hub_diameter", "upper_arm_elbow_hub_diameter", "32 mm"),
        ParameterEntry::new("param:upper_arm_elbow_bore_diameter", "upper_arm_elbow_bore_diameter", "12 mm"),
    ];
    proof {
        reveal_strlit("param:upper_arm_length");
        reveal_strlit("param:upper_arm_width");
        reveal_strlit("param:upper_arm_thickness");
        reveal_strlit("param:shoulder_hub_diameter");
        reveal_strlit("param:shoulder_bore_diameter");
        reveal_strlit("param:upper_arm_elbow_hub_diameter");
        reveal_strlit("param:upper_arm_elbow_bore_diameter");
        assert(entries_view(entries@) =~= robot_arm_upper_arm_spec());
        assert(first_distinct(ids_of(robot_arm_upper_arm_spec()), 7)) by {
            reveal_with_fuel(first_distinct, 8);
            reveal_with_fuel(differs_from_first, 8);
        }
        lemma_distinct_ids(ids_of(robot_arm_upper_arm_spec()));
    }
    graph_of(entries)
}

pub open spec fn robot_arm_forearm_spec() -> Seq<EntryView> {
    seq![
        ("param:forearm_length"@, "forearm_length"@, "110 mm"@),
        ("param:forearm_width"@, "forearm_width"@, "24 mm"@),
        ("param:forearm_thickness"@, "forearm_thickness"@, "12 mm"@),
        ("param:forearm_elbow_hub_diameter"@, "forearm_elbow_hub_diameter"@, "32 mm"@),
        ("param:forearm_elbow_bore_diameter"@, "forearm_elbow_bore_diameter"@, "12 mm"@),
        ("param:wrist_hub_diameter"@, "wrist_hub_diameter"@, "30 mm"@),
        ("param:wrist_bore_diameter"@, "wrist_bore_diameter"@, "10 mm"@),
    ]
}

/// Parameters for the robot-arm forearm link part.
pub fn robot_arm_forearm_parameters() -> (g: ParamGraph)
    ensures
        g.wf(),
        g@.entries == robot_arm_forearm_spec(),
        g@.dependencies.len() == 0,
{
    let entries = vec![
        ParameterEntry::new("param:forearm_length", "forearm_length", "110 mm"),
        ParameterEntry::new("param:forearm_width", "forearm_width", "24 mm"),
        ParameterEntry::new("param:forearm_thickness", "forearm_thickness", "12 mm"),
        ParameterEntry::new("param:forearm_elbow_hub_diameter", "forearm_elbow_hub_diameter", "32 mm"),
        ParameterEntry::new("param:forearm_elbow_bore_diameter", "forearm_elbow_bore_diameter", "12 mm"),
        ParameterEntry::new("param:wrist_hub_diameter", "wrist_hub_diameter", "30 mm"),
        ParameterEntry::new("param:wrist_bore_diameter", "wrist_bore_diameter", "10 mm"),
    ];
    proof {
        reveal_strlit("param:forearm_length");
        reveal_strlit("param:forearm_width");
        reveal_strlit("param:forearm_thickness");
        reveal_strlit("param:forearm_elbow_hub_diameter");
        reveal_strlit("param:forearm_elbow_bore_diameter");
        reveal_strlit("param:wrist_hub_diameter");
        reveal_strlit("param:wrist_bore_diameter");
        assert(entries_view(entries@) =~= robot_arm_forearm_spec());
        assert(first_distinct(ids_of(robot_arm_forearm_spec()), 7)) by {
            reveal_with_fuel(first_distinct, 8);
            reveal_with_fuel(differs_from_first, 8);
        }
        lemma_distinct_ids(ids_of(robot_arm_forearm_spec()));
    }
    graph_of(entries)
}

pub open spec fn robot_arm_gripper_spec() -> Seq<EntryView> {
    seq![
        ("param:gripper_length"@, "gripper_length"@, "40 mm"@),
        ("param:gripper_width"@, "gripper_width"@, "36 mm"@),
        ("param:gripper_thickness"@, "gripper_thickness"@, "14 mm"@),
        ("param:gripper_wrist_bore_diameter"@, "gripper_wrist_bore_diameter"@, "10 mm"@),
        ("param:finger_diameter"@, "finger_diameter"@, "12 mm"@),
        ("param:finger_spacing"@, "finger_spacing"@, "16 mm"@),
        ("param:finger_length"@, "finger_length"@, "18 mm"@),
    ]
}

/// Parameters for the robot-arm wrist gripper part.
pub fn robot_arm_gripper_parameters() -> (g: ParamGraph)
    ensures
        g.wf(),
        g@.entries == robot_arm_gripper_spec(),
        g@.dependencies.len() == 0,
{
    let entries = vec![
        ParameterEntry::new("param:gripper_length", "gripper_length", "40 mm"),
        ParameterEntry::new("param:gripper_width", "gripper_width", "36 mm"),
        ParameterEntry::new("param:gripper_thickness", "gripper_thickness", "14 mm"),
        ParameterEntry::new("param:gripper_wrist_bore_diameter", "gripper_wrist_bore_diameter", "10 mm"),
        ParameterEntry::new("param:finger_diameter", "finger_diameter", "12 mm"),
        ParameterEntry::new("param:finger_spacing", "finger_spacing", "16 mm"),
        ParameterEntry::new("param:finger_length", "finger_length", "18 mm"),
    ];
    proof {
        reveal_strlit("param:gripper_length");
        reveal_strlit("param:gripper_width");
        reveal_strlit("param:gripper_thickness");
        reveal_strlit("param:gripper_wrist_bore_diameter");
        reveal_strlit("param:finger_diameter");
        reveal_strlit("param:finger_spacing");
        reveal_strlit("param:finger_length");
        assert(entries_view(entries@) =~= robot_arm_gripper_spec());
        assert("param:gripper_length"@[6] != "param:finger_spacing"@[6]);
        assert("param:gripper_width"@[6] != "param:finger_length"@[6]);
        assert(first_distinct(ids_of(robot_arm_gripper_spec()), 7)) by {
            reveal_with_fuel(first_distinct, 8);
            reveal_with_fuel(differs_from_first, 8);
        }
        lemma_distinct_ids(ids_of(robot_arm_gripper_spec()));
    }
    graph_of(entries)
}

pub open spec fn revolve_spec(angle_expr: Seq<char>) -> Seq<EntryView> {
    seq![
        ("param:inner_radius"@, "inner_radius"@, "15 mm"@),
        ("param:outer_radius"@, "outer_radius"@, "25 mm"@),
        ("param:height"@, "height"@, "20 mm"@),
        ("param:revolve_angle"@, "revolve_angle_rad"@, angle_expr),
    ]
}

/// Default revolve bushing/sector parameters (lengths in mm, angle in
/// degrees); the angle's expression is given.
pub fn revolve_parameters(angle_expr: &str) -> (g: ParamGraph)
    ensures
        g.wf(),
        g@.entries == revolve_spec(angle_expr@),
        g@.dependencies.len() == 0,
{
    let entries = vec![
        ParameterEntry::new("param:inner_radius", "inner_radius", "15 mm"),
        ParameterEntry::new("param:outer_radius", "outer_radius", "25 mm"),
        ParameterEntry::new("param:height", "height", "20 mm"),
        ParameterEntry::new("param:revolve_angle", "revolve_angle_rad", angle_expr),
    ];
    proof {
        reveal_strlit("param:inner_radius");
        reveal_strlit("param:outer_radius");
        reveal_strlit("param:height");
        reveal_strlit("param:revolve_angle");
        assert(entries_view(entries@) =~= revolve_spec(angle_expr@));
        assert("param:inner_radius"@[6] != "param:outer_radius"@[6]);
        assert(first_distinct(ids_of(revolve_spec(angle_expr@)), 4)) by {
            reveal_with_fuel(first_distinct, 5);
            reveal_with_fuel(differs_from_first, 5);
        }
        lemma_distinct_ids(ids_of(revolve_spec(angle_expr@)));
    }
    graph_of(entries)
}

} // verus!
