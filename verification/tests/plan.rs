use cathedral::plan::resource::{ResourceBounds, ResourceContract};

#[test]
fn test_resource_bounds_new() {
    let bounds = ResourceBounds::new();
    assert!(bounds.min.is_none());
    assert!(bounds.max.is_none());
}

#[test]
fn test_resource_bounds_with_min() {
    let bounds = ResourceBounds::new().with_min(100);
    assert_eq!(bounds.min, Some(100));
}

#[test]
fn test_resource_bounds_check() {
    let bounds = ResourceBounds::new().with_min(10).with_max(100);
    assert!(bounds.check(50));
    assert!(!bounds.check(5));
    assert!(!bounds.check(150));
    assert!(bounds.check(10));
    assert!(bounds.check(100));
}

#[test]
fn test_resource_bounds_unbounded_accepts_all() {
    let bounds = ResourceBounds::new();
    assert!(bounds.check(0));
    assert!(bounds.check(u64::MAX));
}

#[test]
fn test_resource_contract_new() {
    let contract = ResourceContract::new();
    assert!(contract.memory.min.is_none());
    assert!(contract.cpu.min.is_none());
}

#[test]
fn test_resource_contract_with_memory() {
    let bounds = ResourceBounds::new().with_max(1024);
    let contract = ResourceContract::new().with_memory(bounds);
    assert_eq!(contract.memory.max, Some(1024));
}

use cathedral::core_types::capability::Capability;
use cathedral::core_types::id::NodeId;
use cathedral::plan::compiler::{Ast, Compiler, Expr, Statement};
use cathedral::plan::dag::{Dag, Edge, Node, NodeKind, ResourceRequirements};
use cathedral::plan::dsl::parse;
use cathedral::plan::validate::{ValidationError, Validator};
use indexmap::IndexSet;

fn make_test_node(id: NodeId) -> Node {
    Node {
        id,
        kind: NodeKind::Tool { name: "test_tool".to_string(), version: "1.0.0".to_string() },
        dependencies: IndexSet::new(),
        capabilities: Vec::new(),
        resources: ResourceRequirements::new(),
    }
}

#[test]
fn test_dag_new() {
    let dag = Dag::new();
    assert!(dag.is_empty());
    assert_eq!(dag.node_count(), 0);
    assert_eq!(dag.edge_count(), 0);
}

#[test]
fn test_dag_add_node() {
    let mut dag = Dag::new();
    let node = make_test_node(NodeId::new());

    let result = dag.add_node(node.clone());
    assert!(result.is_ok());
    assert_eq!(dag.node_count(), 1);
    assert!(dag.entry_nodes.contains(&node.id));
}

#[test]
fn test_dag_add_node_duplicate() {
    let mut dag = Dag::new();
    let id = NodeId::new();
    let node = make_test_node(id);

    dag.add_node(node.clone()).unwrap();
    let result = dag.add_node(node);

    assert!(result.is_err());
}

#[test]
fn test_dag_add_node_duplicate_message() {
    let mut dag = Dag::new();
    let id = NodeId::from_u128(0x0123_4567_89ab_cdef_0123_4567_89ab_cdef);
    dag.add_node(make_test_node(id)).unwrap();
    let err = dag.add_node(make_test_node(id)).unwrap_err();
    assert_eq!(
        err.to_string(),
        "Node already exists: NodeId(01234567-89ab-cdef-0123-456789abcdef)"
    );
}

#[test]
fn test_dag_add_edge() {
    let mut dag = Dag::new();
    let id1 = NodeId::new();
    let id2 = NodeId::new();

    dag.add_node(make_test_node(id1)).unwrap();
    dag.add_node(make_test_node(id2)).unwrap();

    let edge = Edge::new(id1, id2);
    let result = dag.add_edge(edge);

    assert!(result.is_ok());
    assert_eq!(dag.edge_count(), 1);
}

#[test]
fn dag_add_edge_refuses_back_edge() {
    let mut dag = Dag::new();
    let a = NodeId::from_u128(1);
    let b = NodeId::from_u128(2);
    dag.add_node(make_test_node(a)).unwrap();
    dag.add_node(make_test_node(b)).unwrap();
    dag.add_edge(Edge::new(a, b)).unwrap();
    let r = dag.add_edge(Edge::new(b, a));
    assert!(r.is_err());
    assert_eq!(dag.edges, vec![Edge::new(a, b)]);
    assert!(dag.add_edge(Edge::new(a, a)).is_err());
    assert_eq!(dag.edge_count(), 1);
    assert!(dag.validate().is_ok());
}

#[test]
fn dag_diamond_is_acyclic() {
    let mut dag = Dag::new();
    let (x, a, b, c, d) = (
        NodeId::from_u128(1),
        NodeId::from_u128(2),
        NodeId::from_u128(3),
        NodeId::from_u128(4),
        NodeId::from_u128(5),
    );
    for id in [x, a, b, c, d] {
        dag.add_node(make_test_node(id)).unwrap();
    }
    dag.add_edge(Edge::new(x, a)).unwrap();
    dag.add_edge(Edge::new(a, b)).unwrap();
    dag.add_edge(Edge::new(a, c)).unwrap();
    dag.add_edge(Edge::new(b, d)).unwrap();
    dag.add_edge(Edge::new(c, d)).unwrap();
    assert!(dag.validate().is_ok());
    assert!(!dag.would_create_cycle(&Edge::new(x, d)).unwrap());
    assert!(dag.would_create_cycle(&Edge::new(d, x)).unwrap());
    assert!(dag.add_edge(Edge::new(d, a)).is_err());
    assert_eq!(dag.edge_count(), 5);
}

#[test]
fn dag_validate_refuses_cycle() {
    let mut dag = Dag::new();
    let a = NodeId::from_u128(1);
    let b = NodeId::from_u128(2);
    dag.add_node(make_test_node(a)).unwrap();
    dag.add_node(make_test_node(b)).unwrap();
    dag.edges.push(Edge::new(a, b));
    dag.edges.push(Edge::new(b, a));
    assert!(dag.validate().is_err());
}

#[test]
fn test_dag_validate_empty() {
    let dag = Dag::new();
    assert!(dag.validate().is_ok());
}

#[test]
fn test_dag_validate_with_nodes() {
    let mut dag = Dag::new();
    let id = NodeId::new();
    dag.add_node(make_test_node(id)).unwrap();

    assert!(dag.validate().is_ok());
}

#[test]
fn test_dag_validate_missing_node() {
    let mut dag = Dag::new();
    let id = NodeId::new();
    dag.add_node(make_test_node(id)).unwrap();

    let edge = Edge::new(id, NodeId::new());
    dag.edges.push(edge);

    let result = dag.validate();
    assert!(result.is_err());
}

#[test]
fn test_dag_dependents() {
    let mut dag = Dag::new();
    let id1 = NodeId::new();
    let id2 = NodeId::new();

    dag.add_node(make_test_node(id1)).unwrap();
    dag.add_node(make_test_node(id2)).unwrap();

    dag.edges.push(Edge::new(id1, id2));

    let deps = dag.dependencies(id2);
    assert_eq!(deps.len(), 1);
    assert_eq!(deps[0], id1);
    assert_eq!(dag.dependents(id1), vec![id2]);
    assert!(dag.get_node(id1).is_some());
    assert!(dag.get_node(NodeId::from_u128(7)).is_none());
}

#[test]
fn test_edge_new() {
    let id1 = NodeId::new();
    let id2 = NodeId::new();
    let edge = Edge::new(id1, id2);

    assert_eq!(edge.from, id1);
    assert_eq!(edge.to, id2);
    assert!(edge.from_port.is_none());
    assert!(edge.to_port.is_none());
}

#[test]
fn test_edge_with_ports() {
    let id1 = NodeId::new();
    let id2 = NodeId::new();
    let edge = Edge::with_ports(id1, id2, "output".to_string(), "input".to_string());

    assert_eq!(edge.from_port, Some("output".to_string()));
    assert_eq!(edge.to_port, Some("input".to_string()));
}

#[test]
fn test_edge_debug_text_matches_debug() {
    let edge = Edge::with_ports(NodeId::from_u128(1), NodeId::from_u128(2), "o".to_string(), "i".to_string());
    let expected = format!(
        "Edge {{ from: NodeId(00000000-0000-0000-0000-000000000001), to: NodeId(00000000-0000-0000-0000-000000000002), from_port: {:?}, to_port: {:?} }}",
        Some("o".to_string()),
        Some("i".to_string())
    );
    assert_eq!(edge.debug_text(), expected);
}

#[test]
fn test_resource_requirements() {
    let reqs = ResourceRequirements::new().with_max_memory(1024).with_max_ticks(100).with_cpu_shares(4);

    assert_eq!(reqs.max_memory, Some(1024));
    assert_eq!(reqs.max_ticks, Some(100));
    assert_eq!(reqs.cpu_shares, Some(4));
}

#[test]
fn test_compiler_new() {
    let compiler = Compiler::new();
    assert_eq!(compiler.next_id, 0);
}

#[test]
fn test_ast_new() {
    let ast = Ast::new();
    assert!(ast.statements.is_empty());
}

#[test]
fn test_ast_add_statement() {
    let mut ast = Ast::new();
    ast.add_statement(Statement::Input { name: "test".to_string(), schema: "string".to_string() });
    assert_eq!(ast.statements.len(), 1);
}

#[test]
fn test_compile_empty() {
    let mut compiler = Compiler::new();
    let ast = Ast::new();
    let result = compiler.compile(&ast);
    assert!(result.is_ok());
    assert!(result.unwrap().dag.is_empty());
}

#[test]
fn test_compile_input() {
    let mut compiler = Compiler::new();
    let mut ast = Ast::new();
    ast.add_statement(Statement::Input { name: "data".to_string(), schema: "string".to_string() });

    let result = compiler.compile(&ast);
    assert!(result.is_ok());
    assert_eq!(result.unwrap().dag.node_count(), 1);
}

#[test]
fn test_compile_sequence_and_parallel() {
    let mut compiler = Compiler::new();
    let mut ast = Ast::new();
    ast.add_statement(Statement::Sequence {
        statements: vec![
            Statement::Input { name: "x".to_string(), schema: "string".to_string() },
            Statement::Parallel {
                branches: vec![
                    Statement::ToolCall { name: "read_file".to_string(), args: vec![], output: None },
                    Statement::ToolCall { name: "exec".to_string(), args: vec![], output: None },
                ],
            },
        ],
    });
    let out = compiler.compile(&ast).unwrap();
    assert_eq!(out.dag.node_count(), 4);
    assert_eq!(out.dag.edge_count(), 3);
    assert!(out.warnings.is_empty());
    assert_eq!(compiler.next_id, 4);
}

#[test]
fn test_infer_capabilities() {
    let compiler = Compiler::new();
    let caps = compiler.infer_capabilities("read_file", &[]);
    assert_eq!(caps.len(), 1);
    assert!(matches!(&caps[0], Capability::FsRead { .. }));
    assert!(compiler.infer_capabilities("unknown", &[]).is_empty());
}

#[test]
fn test_expr_string() {
    let expr = Expr::String("test".to_string());
    assert_eq!(expr, Expr::String("test".to_string()));
}

#[test]
fn test_expr_integer() {
    let expr = Expr::Integer(42);
    assert_eq!(expr, Expr::Integer(42));
}

#[test]
fn test_parse_empty() {
    let result = parse("");
    assert!(result.is_ok());
    assert!(result.unwrap().statements.is_empty());
}

#[test]
fn test_parse_returns_ast() {
    let result = parse("input x: string");
    assert!(result.is_ok());
}

#[test]
fn validate_test_validator_new() {
    let validator = Validator::new();
    assert!(validator.require_input);
    assert!(validator.require_output);
    assert_eq!(validator.max_nodes, 0);
}

#[test]
fn test_validator_with_options() {
    let validator = Validator::new().with_require_input(false).with_require_output(false).with_max_nodes(100);

    assert!(!validator.require_input);
    assert!(!validator.require_output);
    assert_eq!(validator.max_nodes, 100);
}

#[test]
fn test_validate_empty_dag() {
    let validator = Validator::new().with_require_input(false).with_require_output(false);
    let dag = Dag::new();
    assert!(validator.validate(&dag).is_ok());
}

#[test]
fn test_validate_dag_missing_input() {
    let validator = Validator::new();
    let dag = Dag::new();
    let result = validator.validate(&dag);
    assert!(result.is_err());
    assert_eq!(result.unwrap_err(), vec![ValidationError::MissingOutput]);
}

#[test]
fn test_validate_cycle_and_disconnected() {
    let validator = Validator::new().with_require_input(false).with_require_output(false).with_max_nodes(1);
    let mut dag = Dag::new();
    let a = NodeId::from_u128(1);
    let b = NodeId::from_u128(2);
    dag.add_node(make_test_node(a)).unwrap();
    dag.add_node(make_test_node(b)).unwrap();
    dag.edges.push(Edge::new(a, b));
    dag.edges.push(Edge::new(b, a));
    let errs = validator.validate(&dag).unwrap_err();
    assert_eq!(errs.len(), 2);
    assert!(matches!(&errs[0], ValidationError::Cycle { .. }));
    match &errs[1] {
        ValidationError::ResourceViolation { resource, .. } => {
            assert_eq!(resource, "node count 2 exceeds max 1")
        }
        other => panic!("unexpected {:?}", other),
    }
}

#[test]
fn test_validation_error_text() {
    assert_eq!(ValidationError::MissingOutput.to_string(), "Missing output node");
    let e = ValidationError::Disconnected { nodes: vec![NodeId::from_u128(255)] };
    assert_eq!(e.to_string(), "Disconnected nodes: [NodeId(00000000-0000-0000-0000-0000000000ff)]");
}

#[test]
fn statements_copy_deeply() {
    let call = Expr::Call {
        function: "f".to_string(),
        args: vec![Expr::Integer(3), Expr::Call { function: "g".to_string(), args: vec![Expr::Variable("x".to_string())] }],
    };
    assert_eq!(call.duplicate(), call);
    let stmt = Statement::Sequence {
        statements: vec![
            Statement::ToolCall { name: "t".to_string(), args: vec![call.clone()], output: Some("o".to_string()) },
            Statement::Parallel { branches: vec![Statement::Output { name: "y".to_string(), value: Expr::String("s".to_string()) }] },
        ],
    };
    assert_eq!(stmt.duplicate(), stmt);
    assert_eq!(stmt.clone(), stmt);
}

#[test]
fn compile_parallel_merges_each_branch() {
    let mut compiler = Compiler::new();
    let mut ast = Ast::new();
    ast.add_statement(Statement::Parallel {
        branches: vec![
            Statement::Input { name: "x".to_string(), schema: "string".to_string() },
            Statement::ToolCall { name: "read_file".to_string(), args: vec![], output: None },
        ],
    });
    let out = compiler.compile(&ast).unwrap();
    let ids: Vec<NodeId> = out.dag.nodes.keys().cloned().collect();
    assert_eq!(ids.len(), 3);
    let merge = ids[2];
    let node = out.dag.get_node(merge).unwrap();
    assert_eq!(node.kind, NodeKind::Reduce { function: "merge".to_string(), initial: vec![] });
    let deps: Vec<NodeId> = node.dependencies.iter().cloned().collect();
    assert_eq!(deps, vec![ids[0], ids[1]]);
    assert_eq!(out.dag.edges, vec![Edge::new(ids[0], merge), Edge::new(ids[1], merge)]);
    assert_eq!(out.dag.dependencies(merge), vec![ids[0], ids[1]]);
    assert_eq!(
        out.dag.get_node(ids[0]).unwrap().kind,
        NodeKind::Input { schema: "schema_x".to_string() }
    );
}

#[test]
fn compile_sequence_links_in_order() {
    let mut compiler = Compiler::new();
    let mut ast = Ast::new();
    ast.add_statement(Statement::Sequence {
        statements: vec![
            Statement::Input { name: "x".to_string(), schema: "string".to_string() },
            Statement::ToolCall { name: "http_get".to_string(), args: vec![], output: None },
            Statement::Output { name: "y".to_string(), value: Expr::Variable("x".to_string()) },
        ],
    });
    let out = compiler.compile(&ast).unwrap();
    let ids: Vec<NodeId> = out.dag.nodes.keys().cloned().collect();
    assert_eq!(ids.len(), 3);
    assert_eq!(out.dag.edges, vec![Edge::new(ids[0], ids[1]), Edge::new(ids[1], ids[2])]);
    assert!(out.dag.get_node(ids[1]).unwrap().dependencies.is_empty());
}

#[test]
fn compile_links_to_empty_sequence_fail_validation() {
    let mut compiler = Compiler::new();
    let mut ast = Ast::new();
    ast.add_statement(Statement::Sequence {
        statements: vec![
            Statement::Input { name: "x".to_string(), schema: "string".to_string() },
            Statement::Sequence { statements: vec![] },
        ],
    });
    let r = compiler.compile(&ast);
    assert!(matches!(r, Err(cathedral::core_types::error::CoreError::NotFound { .. })));
    assert_eq!(compiler.next_id, 2);
}
