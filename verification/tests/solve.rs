use mathol::matrices::matrice::Matrice;

fn reduce_row(vec: &Vec<f64>, k: usize, c: &Vec<f64>) -> (Vec<f64>, f64) {
    let n = &vec[k];
    if *n == 0.0 {
        return (vec.clone(), c[k]);
    }
    let mut red = Vec::new();

    for e in vec.iter() {
        red.push(e / n);
    }

    (red, c[k] / n)
}

fn add_gaussian(v1: &Vec<f64>, v2: &Vec<f64>, k: usize, a: f64, b: f64) -> (Vec<f64>, f64) {
    assert_eq!(v1.len(), v2.len());

    let mut vec = Vec::new();
    let p = (-1.0) * v2[k];
    for i in 0..v1.len() {
        vec.push(p * v1[i] + v2[i]);
    }

    (vec, p * a + b)
}

fn eliminate(matrice: &Matrice, c: &Vec<i64>) -> (Vec<Vec<f64>>, Vec<f64>) {
    let (a, d) = matrice.checked_ordered_system(c).unwrap().unwrap();

    let mut m = Vec::new();
    let mut s = Vec::new();

    for i in a.iter() {
        let mut b = Vec::new();
        for k in i.iter() {
            b.push(*k as f64);
        }
        m.push(b);
    }

    for i in d.iter() {
        s.push(*i as f64);
    }

    for k in 0..matrice.columns {
        if m[k][k] == 0.0 {
            let tmp = m[k].clone();
            let y = s[k];
            m.remove(k);
            s.remove(k);
            m.push(tmp);
            s.push(y);
        }
        let (r, w) = reduce_row(&m[k], k, &s);
        m[k] = r;
        s[k] = w;
        for i in k + 1..matrice.rows {
            let (vec, u) = add_gaussian(&m[k], &m[i], k, s[k], s[i]);
            m[i] = vec;
            s[i] = u;
        }
    }

    for k in (0..matrice.columns).rev() {
        for i in (0..k).rev() {
            let (vec, u) = add_gaussian(&m[k], &m[i], k, s[k], s[i]);
            m[i] = vec;
            s[i] = u;
        }
    }

    (m, s)
}

fn close(a: f64, b: f64) -> bool {
    (a - b).abs() < 1e-9
}

#[test]
fn test_ordered_system_eliminates() {
    let m = Matrice::build_matrice(
        4,
        4,
        vec![2, 1, 4, 3, -1, 2, 1, -1, 3, 4, -1, -2, 4, 3, 2, 1],
    )
    .unwrap();
    let (vecs, c) = eliminate(&m, &vec![0, 4, 0, 0]);
    assert_eq!(
        vec![
            vec![1.0, 0.0, 0.0, 0.0],
            vec![0.0, 1.0, 0.0, 0.0],
            vec![0.0, 0.0, 1.0, 0.0],
            vec![0.0, 0.0, 0.0, 1.0]
        ],
        vecs
    );
    let expected = vec![2.0, -4.0, 6.0, -8.0];
    assert_eq!(expected.len(), c.len());
    for i in 0..4 {
        assert!(close(expected[i], c[i]));
    }
}

#[test]
fn test_ordered_system_eliminates_with_zero_pivot() {
    let m = Matrice::build_matrice(4, 4, vec![0, 2, 4, 3, 3, 1, 0, 2, 0, 0, 0, 1, 0, 0, 2, 2])
        .unwrap();
    let (vecs, c) = eliminate(&m, &vec![1, 2, 3, 4]);
    assert_eq!(4, vecs.len());
    for i in 0..4 {
        for k in 0..4 {
            assert!(close(if i == k { 1.0 } else { 0.0 }, vecs[i][k]));
        }
    }
    let x = c;
    assert!(close(1.0, 2.0 * x[1] + 4.0 * x[2] + 3.0 * x[3]));
    assert!(close(2.0, 3.0 * x[0] + x[1] + 2.0 * x[3]));
    assert!(close(3.0, x[3]));
    assert!(close(4.0, 2.0 * x[2] + 2.0 * x[3]));
}
