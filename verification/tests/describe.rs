use organelle::axon::{Axon, Constraint};
use organelle::handle::Handle;
use organelle::organelle::Organelle;
use organelle::probe::{ConstraintData, Describe, SomaData, SynapseData};
use organelle::samples::{DemoNet, Emitter, LinkRole, Nested, Recorder};
use organelle::soma::{Effector, Impulse, Soma};
use organelle::visualizer::{handle_text, render_dot};

#[test]
fn composite_description_lists_nucleus_and_children() {
    let mut sub = Organelle::new(DemoNet::Emitter(Emitter::new()));
    sub.set_name(String::from("inner"));
    sub.add_soma(DemoNet::Recorder(Recorder::new())).unwrap();

    let mut net = Organelle::new(Nested::Leaf(DemoNet::Recorder(Recorder::new())));
    net.add_soma(Nested::Sub(Box::new(sub))).unwrap();

    let data = net.describe();
    match data {
        SomaData::Organelle { nucleus, somas, uuid, name } => {
            assert_eq!(uuid, net.identity());
            assert_eq!(name, "organelle");
            match *nucleus {
                SomaData::Soma { ref synapse, ref name } => {
                    assert_eq!(synapse.0, "link");
                    assert_eq!(name, "recorder");
                },
                _ => panic!("leaf description expected"),
            }
            assert_eq!(somas.len(), 1);
            match &somas[0] {
                SomaData::Organelle { nucleus, somas, name, .. } => {
                    assert_eq!(name, "inner");
                    match &**nucleus {
                        SomaData::Soma { name, .. } => assert_eq!(name, "emitter"),
                        _ => panic!("leaf description expected"),
                    }
                    assert_eq!(somas.len(), 1);
                },
                _ => panic!("composite description expected"),
            }
        },
        _ => panic!("composite description expected"),
    }
}

#[test]
fn axon_description_reports_declared_constraints_and_peers() {
    let axon = Axon::new(
        Recorder::new(),
        vec![Constraint::Variadic(LinkRole::Link)],
        vec![],
    )
    .with_name(String::from("probe"));

    let me = Handle::from_bits(77);
    let peer = Handle::from_bits(88);
    let fx: Effector<organelle::samples::DemoMsg> = Effector::new(me);
    let (axon, _) = axon.update(Impulse::Init(fx)).unwrap();
    let (axon, _) = axon.update(Impulse::AddInput(peer, LinkRole::Link)).unwrap();

    match axon.describe() {
        SomaData::Axon { terminals, dendrites, uuid, name } => {
            assert_eq!(name, "probe");
            assert_eq!(uuid, me);
            assert!(terminals.is_empty());
            assert_eq!(dendrites.len(), 1);
            match &dendrites[0] {
                ConstraintData::Variadic { variant, somas } => {
                    assert_eq!(variant, "link");
                    assert_eq!(somas, &vec![peer]);
                },
                _ => panic!("variadic constraint expected"),
            }
        },
        _ => panic!("axon description expected"),
    }
}

#[test]
fn axon_rejects_undeclared_roles_and_unmet_constraints() {
    // no input constraints declared: any input notification is refused
    let bare = Axon::new(Recorder::new(), vec![], vec![]);
    let fx: Effector<organelle::samples::DemoMsg> = Effector::new(Handle::from_bits(1));
    let (bare, _) = bare.update(Impulse::Init(fx)).unwrap();
    assert!(bare.update(Impulse::AddInput(Handle::from_bits(2), LinkRole::Link)).is_err());

    // a One constraint without a connected peer refuses to start
    let strict = Axon::new(Recorder::new(), vec![Constraint::One(LinkRole::Link)], vec![]);
    let fx: Effector<organelle::samples::DemoMsg> = Effector::new(Handle::from_bits(3));
    let (strict, _) = strict.update(Impulse::Init(fx)).unwrap();
    assert!(strict.update(Impulse::Start).is_err());

    // with exactly one peer connected, it starts
    let strict = Axon::new(Recorder::new(), vec![Constraint::One(LinkRole::Link)], vec![]);
    let fx: Effector<organelle::samples::DemoMsg> = Effector::new(Handle::from_bits(4));
    let (strict, _) = strict.update(Impulse::Init(fx)).unwrap();
    let (strict, _) = strict.update(Impulse::AddInput(Handle::from_bits(5), LinkRole::Link)).unwrap();
    assert!(strict.update(Impulse::Start).is_ok());
}

#[test]
fn a_run_network_can_be_described_and_rendered() {
    let mut sub = Organelle::new(DemoNet::Emitter(Emitter::new()));
    sub.set_name(String::from("inner"));
    let emitter = sub.nucleus();
    let interior = sub.add_soma(DemoNet::Recorder(Recorder::new())).unwrap();
    sub.connect(emitter, interior, LinkRole::Link).unwrap();

    let mut net = Organelle::new(Nested::Leaf(DemoNet::Recorder(Recorder::new())));
    net.add_soma(Nested::Sub(Box::new(sub))).unwrap();
    net.run(10_000).unwrap();

    let rendered = render_dot(&net.describe());
    assert!(rendered.starts_with("digraph {\n"));
    assert!(rendered.ends_with("}\n"));
    assert!(rendered.contains("subgraph cluster_"));
    assert!(rendered.contains("label=\"inner\""));
    assert!(rendered.contains("recorder"));
    assert!(rendered.contains("emitter"));
}

#[test]
fn handle_text_renders_the_canonical_hyphenated_form() {
    assert_eq!(handle_text(0), "00000000-0000-0000-0000-000000000000");
    assert_eq!(handle_text(42), "00000000-0000-0000-0000-00000000002a");
    assert_eq!(
        handle_text(0x0123456789abcdef0123456789abcdef),
        "01234567-89ab-cdef-0123-456789abcdef"
    );
    assert_eq!(
        handle_text(340282366920938463463374607431768211455),
        "ffffffff-ffff-ffff-ffff-ffffffffffff"
    );
}

#[test]
fn bare_leaf_renders_as_a_record_node() {
    let data = SomaData::Soma {
        synapse: SynapseData(String::from("link")),
        name: String::from("pinger"),
    };
    assert_eq!(
        render_dot(&data),
        "digraph {\n\"pinger\" [label=\"<name> pinger | link\", shape=Mrecord, style=rounded];\n}\n"
    );
}

#[test]
fn axon_renders_its_constraint_rows() {
    let data = SomaData::Axon {
        terminals: vec![ConstraintData::One { variant: String::from("out"), soma: Handle::from_bits(9) }],
        dendrites: vec![
            ConstraintData::Variadic { variant: String::from("a"), somas: vec![] },
            ConstraintData::One { variant: String::from("b"), soma: Handle::from_bits(9) },
        ],
        uuid: Handle::from_bits(42),
        name: String::from("node"),
    };
    assert_eq!(
        render_dot(&data),
        "digraph {\n\"00000000-0000-0000-0000-00000000002a\" [label=\"<name> node | { <t_out> out } | { <d_a> a | <d_b> b }\", shape=Mrecord, style=rounded];\n}\n"
    );
}

#[test]
fn axon_names_have_their_record_markers_escaped() {
    let data = SomaData::Axon {
        terminals: vec![],
        dendrites: vec![],
        uuid: Handle::from_bits(1),
        name: String::from("a<b>c"),
    };
    assert_eq!(
        render_dot(&data),
        "digraph {\n\"00000000-0000-0000-0000-000000000001\" [label=\"<name> a\\<b\\>c | {  } | {  }\", shape=Mrecord, style=rounded];\n}\n"
    );
}

#[test]
fn composite_renders_as_a_cluster() {
    let data = SomaData::Organelle {
        nucleus: Box::new(SomaData::Soma {
            synapse: SynapseData(String::from("link")),
            name: String::from("core"),
        }),
        somas: vec![SomaData::Soma {
            synapse: SynapseData(String::from("link")),
            name: String::from("aux"),
        }],
        uuid: Handle::from_bits(3),
        name: String::from("net"),
    };
    let expected = "digraph {\nsubgraph cluster_00000000-0000-0000-0000-000000000003 {\ngraph [style=rounded, label=\"net\"];\n\"core\" [label=\"<name> core | link\", shape=Mrecord, style=rounded];\n\"aux\" [label=\"<name> aux | link\", shape=Mrecord, style=rounded];\n}\n}\n";
    assert_eq!(render_dot(&data), expected);
}
