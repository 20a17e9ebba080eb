use sierpinski::fractal::sierpinski_triangle;

type Point = [f32; 4];

fn midpoint(p: Point, q: Point) -> Point {
    [(p[0] + q[0]) * 0.5, (p[1] + q[1]) * 0.5, (p[2] + q[2]) * 0.5, (p[3] + q[3]) * 0.5]
}

fn emit(bottom: Point, left: Point, right: Point) -> (Point, Point, Point) {
    (right, bottom, left)
}

fn generate(depth: usize) -> (Vec<Point>, Vec<u32>) {
    let mut vertices = Vec::new();
    let mut indices = Vec::new();
    sierpinski_triangle(
        &mut vertices,
        &mut indices,
        depth,
        [-1.0, -1.0, 0.0, 1.0],
        [1.0, -1.0, 0.0, 1.0],
        [0.0, 1.0, 0.0, 1.0],
        &midpoint,
        &emit,
    );
    (vertices, indices)
}

#[test]
fn depth_zero_emits_nothing() {
    let (vertices, indices) = generate(0);
    assert!(vertices.is_empty());
    assert!(indices.is_empty());
}

#[test]
fn depth_one_emits_the_central_triangle() {
    let (vertices, indices) = generate(1);
    assert_eq!(indices, vec![0, 1, 2]);
    assert_eq!(vertices.len(), 3);
    assert_eq!(vertices[0], [0.5, 0.0, 0.0, 1.0]);
    assert_eq!(vertices[1], [0.0, -1.0, 0.0, 1.0]);
    assert_eq!(vertices[2], [-0.5, 0.0, 0.0, 1.0]);
}

#[test]
fn depth_two_emits_four_triangles() {
    let (vertices, indices) = generate(2);
    assert_eq!(vertices.len(), 12);
    assert_eq!(indices.len(), 12);
    assert_eq!(indices, (0..12).collect::<Vec<u32>>());
    // the outer triangle's own central triangle comes last
    assert_eq!(vertices[9], [0.5, 0.0, 0.0, 1.0]);
    assert_eq!(vertices[10], [0.0, -1.0, 0.0, 1.0]);
    assert_eq!(vertices[11], [-0.5, 0.0, 0.0, 1.0]);
    // the bottom-left corner's central triangle comes first
    assert_eq!(vertices[0], [-0.25, -0.5, 0.0, 1.0]);
    assert_eq!(vertices[1], [-0.5, -1.0, 0.0, 1.0]);
    assert_eq!(vertices[2], [-0.75, -0.5, 0.0, 1.0]);
}

#[test]
fn triangle_count_grows_by_three_plus_one() {
    for (depth, triangles) in [(3usize, 13usize), (4, 40), (5, 121)] {
        let (vertices, indices) = generate(depth);
        assert_eq!(vertices.len(), 3 * triangles);
        assert_eq!(indices.len(), 3 * triangles);
        assert_eq!(2 * triangles + 1, 3usize.pow(depth as u32));
        for (k, index) in indices.iter().enumerate() {
            assert_eq!(*index as usize, k);
        }
    }
}

#[test]
fn appends_after_existing_contents() {
    let mut vertices = vec![[9.0f32; 4]];
    let mut indices = vec![7u32];
    sierpinski_triangle(
        &mut vertices,
        &mut indices,
        1,
        [-1.0, -1.0, 0.0, 1.0],
        [1.0, -1.0, 0.0, 1.0],
        [0.0, 1.0, 0.0, 1.0],
        &midpoint,
        &emit,
    );
    assert_eq!(indices, vec![7, 1, 2, 3]);
    assert_eq!(vertices.len(), 4);
    assert_eq!(vertices[0], [9.0; 4]);
}
