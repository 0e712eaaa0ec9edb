use dimers::auxiliary::TileSeed;
use dimers::dihedral_translation::EvenD8Translation;
use dimers::fractal_specification::{
    coral, dibolt, heighway, hydra, levy, scorpion, FractalSpecification,
};
use dimers::relevance_getter::{get_relevance_list, get_weight_equations, get_weight_images};
use nalgebra::{DMatrix, DVector};

fn solve(images: &[(usize, usize)]) -> Vec<f64> {
    let equations = get_weight_equations(images);
    let length = images.len();
    let mut coefficients: DMatrix<f64> = DMatrix::zeros(length + 1, length);
    for row in 0..=length {
        for column in 0..length {
            coefficients[(row, column)] = equations[row][column] as f64 / 2.0;
        }
    }
    let mut constants: DVector<f64> = DVector::zeros(length + 1);
    constants[length] = 1.0;
    let weights = coefficients.svd(true, true).solve(&constants, 0.000001).unwrap();
    weights.iter().map(|weight| *weight).collect()
}

fn assert_fixed_point(images: &[(usize, usize)], weights: &[f64]) {
    assert_eq!(weights.len(), images.len());
    let sum: f64 = weights.iter().sum();
    assert!((sum - 1.0).abs() < 1e-6);
    for (index, (image_a, image_b)) in images.iter().enumerate() {
        let mean = (weights[*image_a] + weights[*image_b]) / 2.0;
        assert!((weights[index] - mean).abs() < 1e-6);
    }
}

fn check_weights<A, L>(fractal: FractalSpecification<A, L>)
where
    A: Fn(EvenD8Translation) -> bool,
    L: Fn(isize, isize) -> TileSeed,
{
    let relevance = get_relevance_list(&fractal, 1000).unwrap();
    let images = get_weight_images(&fractal, &relevance).unwrap();
    let weights = solve(&images);
    assert_fixed_point(&images, &weights);
}

#[test]
fn weights_sum_to_one_and_are_the_means_of_their_images() {
    check_weights(coral());
    check_weights(hydra());
    check_weights(dibolt());
    check_weights(levy());
    check_weights(scorpion());
    check_weights(heighway());
}

#[test]
fn weights_of_a_system_of_three() {
    let images = [(1, 2), (0, 0), (2, 1)];
    let weights = solve(&images);
    assert_fixed_point(&images, &weights);
    for weight in weights {
        assert!((weight - 1.0 / 3.0).abs() < 1e-6);
    }
}
