use life_rs::torus::{step_backward, step_forward};

#[test]
fn step_forward_wraps_past_the_end() {
    assert_eq!(step_forward(0, 1, 5), 1);
    assert_eq!(step_forward(4, 1, 5), 0);
    assert_eq!(step_forward(3, 6, 4), 1);
    assert_eq!(step_forward(0, 0, 1), 0);
    assert_eq!(step_forward(u32::MAX, u32::MAX, 7), ((2 * u32::MAX as u64) % 7) as u32);
}

#[test]
fn step_backward_wraps_past_the_start() {
    assert_eq!(step_backward(3, 1, 5), 2);
    assert_eq!(step_backward(0, 1, 5), 4);
    assert_eq!(step_backward(0, 6, 4), 2);
    assert_eq!(step_backward(2, 7, 3), 1);
    assert_eq!(step_backward(0, 3, 1), 0);
    assert_eq!(step_backward(5, u32::MAX, 6), 2);
}

#[test]
fn step_backward_undoes_step_forward() {
    for n in 1..9u32 {
        for x in 0..n {
            for k in 0..20u32 {
                assert_eq!(step_backward(step_forward(x, k, n), k, n), x);
            }
        }
    }
}
