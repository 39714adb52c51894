use rand::rngs::StdRng;
use rand::SeedableRng;

use fit_data::Function;

fn height(f: &Function) -> u32 {
    match f {
        Function::Neg { value }
        | Function::Exp { value }
        | Function::Ln { value }
        | Function::Sqrt { value }
        | Function::Sq { value }
        | Function::Sin { value }
        | Function::Cos { value }
        | Function::Tan { value } => 1 + height(value),
        Function::Add { lhs, rhs }
        | Function::Sub { lhs, rhs }
        | Function::Mul { lhs, rhs }
        | Function::Div { lhs, rhs }
        | Function::Pow { lhs, rhs } => 1 + height(lhs).max(height(rhs)),
        _ => 1,
    }
}

fn ops(f: &Function) -> u32 {
    match f {
        Function::Neg { value }
        | Function::Exp { value }
        | Function::Ln { value }
        | Function::Sqrt { value }
        | Function::Sq { value }
        | Function::Sin { value }
        | Function::Cos { value }
        | Function::Tan { value } => 1 + ops(value),
        Function::Add { lhs, rhs }
        | Function::Sub { lhs, rhs }
        | Function::Mul { lhs, rhs }
        | Function::Div { lhs, rhs }
        | Function::Pow { lhs, rhs } => 1 + ops(lhs) + ops(rhs),
        _ => 0,
    }
}

#[test]
fn generated_height_is_bounded_by_complexity() {
    for seed in 0..50u64 {
        let mut rng = StdRng::seed_from_u64(seed);
        for complexity in 0..=30u32 {
            let f = Function::gen(complexity, &mut rng);
            assert!(height(&f) <= complexity + 1);
            assert_eq!(ops(&f), complexity);
        }
    }
}

#[test]
fn generated_at_zero_is_a_leaf() {
    for seed in 0..20u64 {
        let mut rng = StdRng::seed_from_u64(seed);
        let f = Function::gen(0, &mut rng);
        assert!(matches!(f, Function::X | Function::Param { .. }), "{:?}", f);
    }
}

#[test]
fn generated_is_reproducible_from_a_seed() {
    let a = Function::gen(12, &mut StdRng::seed_from_u64(7));
    let b = Function::gen(12, &mut StdRng::seed_from_u64(7));
    assert_eq!(a, b);
}
