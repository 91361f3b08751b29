use rustic_fetch::planner::{plan_fragments, FragmentSpec};
use rustic_fetch::reassembler::{fragment_content, reassemble};

fn check_plan(plan: &[FragmentSpec], expected: &[(usize, u64, u64)]) {
    assert_eq!(plan.len(), expected.len());
    for (frag, exp) in plan.iter().zip(expected.iter()) {
        assert_eq!(frag.index, exp.0);
        assert_eq!(frag.start_byte, exp.1);
        assert_eq!(frag.end_byte, exp.2);
    }
}

#[test]
fn plan_100_bytes_in_3_fragments() {
    let plan = plan_fragments(100, 3);
    check_plan(&plan, &[(0, 0, 32), (1, 33, 65), (2, 66, 99)]);
}

#[test]
fn plan_single_fragment_takes_all() {
    let plan = plan_fragments(100, 1);
    check_plan(&plan, &[(0, 0, 99)]);
}

#[test]
fn plan_one_byte_per_fragment() {
    let plan = plan_fragments(3, 3);
    check_plan(&plan, &[(0, 0, 0), (1, 1, 1), (2, 2, 2)]);
}

#[test]
fn plan_even_split_without_remainder() {
    let plan = plan_fragments(100, 2);
    check_plan(&plan, &[(0, 0, 49), (1, 50, 99)]);
}

#[test]
fn plan_is_contiguous_cover() {
    let total: u64 = 12345;
    let plan = plan_fragments(total, 7);
    assert_eq!(plan[0].start_byte, 0);
    assert_eq!(plan[plan.len() - 1].end_byte, total - 1);
    for i in 1..plan.len() {
        assert_eq!(plan[i].start_byte, plan[i - 1].end_byte + 1);
    }
}

#[test]
fn reassemble_concatenates_in_order() {
    let fragments = vec![vec![1u8, 2], vec![3], vec![], vec![4, 5, 6]];
    assert_eq!(reassemble(&fragments), vec![1, 2, 3, 4, 5, 6]);
}

#[test]
fn fragment_round_trip_reproduces_content() {
    let content: Vec<u8> = (0..100u8).collect();
    let plan = plan_fragments(content.len() as u64, 3);
    let mut fragments: Vec<Vec<u8>> = Vec::new();
    for frag in plan.iter() {
        fragments.push(fragment_content(&content, frag));
    }
    assert_eq!(reassemble(&fragments), content);
}

#[test]
fn fragment_content_takes_inclusive_range() {
    let content: Vec<u8> = vec![10, 20, 30, 40, 50];
    let frag = FragmentSpec { index: 0, start_byte: 1, end_byte: 3 };
    assert_eq!(fragment_content(&content, &frag), vec![20, 30, 40]);
}
