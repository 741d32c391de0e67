use raytracer::ppm::image_text;
use raytracer::raster::scan_order;

#[test]
fn scan_goes_top_row_first() {
    assert_eq!(scan_order(2, 2), vec![(0, 1), (1, 1), (0, 0), (1, 0)]);
}

#[test]
fn scan_of_single_row() {
    assert_eq!(scan_order(3, 1), vec![(0, 0), (1, 0), (2, 0)]);
}

#[test]
fn scan_of_single_column() {
    assert_eq!(scan_order(1, 3), vec![(0, 2), (0, 1), (0, 0)]);
}

#[test]
fn scan_of_empty_image() {
    assert!(scan_order(0, 4).is_empty());
    assert!(scan_order(4, 0).is_empty());
}

#[test]
fn scan_visits_each_pixel_once() {
    let order = scan_order(7, 5);
    assert_eq!(order.len(), 35);
    let mut seen = vec![false; 35];
    let mut last_row = 4;
    for (i, j) in order {
        assert!(i < 7 && j < 5);
        assert!(j <= last_row);
        last_row = j;
        let slot = (j * 7 + i) as usize;
        assert!(!seen[slot]);
        seen[slot] = true;
    }
}

fn sky(dir: (f64, f64, f64)) -> (f64, f64, f64) {
    let len = (dir.0 * dir.0 + dir.1 * dir.1 + dir.2 * dir.2).sqrt();
    let t = 0.5 * (dir.1 / len + 1.0);
    (
        (1.0 - t) * 1.0 + t * 0.5,
        (1.0 - t) * 1.0 + t * 0.7,
        (1.0 - t) * 1.0 + t * 1.0,
    )
}

#[test]
fn render_two_by_two() {
    let (width, height) = (2u64, 2u64);
    let aspect = 16.0 / 9.0;
    let (vw, vh) = (aspect * 2.0, 2.0);
    let pixels: Vec<(i64, i64, i64)> = scan_order(width, height)
        .into_iter()
        .map(|(i, j)| {
            let u = i as f64 / (width - 1) as f64;
            let v = j as f64 / (height - 1) as f64;
            let dir = (-vw / 2.0 + u * vw, -vh / 2.0 + v * vh, -1.0);
            let c = sky(dir);
            (
                (255.999 * c.0) as i64,
                (255.999 * c.1) as i64,
                (255.999 * c.2) as i64,
            )
        })
        .collect();
    let text = image_text(width, height, &pixels);
    let lines: Vec<&str> = text.split_terminator('\n').collect();
    assert_eq!(lines.len(), 8);
    assert_eq!(&lines[..4], &["P3", "2 2", "255", ""]);
    let mut reds = Vec::new();
    for line in &lines[4..] {
        let channels: Vec<i64> = line.split(' ').map(|c| c.parse().unwrap()).collect();
        assert_eq!(channels.len(), 3);
        assert!(channels.iter().all(|c| (0..=255).contains(c)));
        reds.push(channels[0]);
    }
    // the top row looks up into the blue end of the gradient
    assert!(reds[0] < reds[2] && reds[1] < reds[3]);
}
