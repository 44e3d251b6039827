use cgmath::{dot, vec3, Angle, InnerSpace, Vector3};
use rusttracer::floor::{self, Extent, Tile};
use rusttracer::light::{Material, Rgb};
use rusttracer::scalar::Scalar;
use rusttracer::sphere;
use rusttracer::tracer::{self, shape_intersect};

// The geometry of a scene is double-precision work that the library leaves to
// its callers. These tests do that work with cgmath and ask the library for
// every decision.

fn scalar(x: f64) -> Scalar {
    Scalar::from_bits(x.to_bits())
}

fn number(s: Scalar) -> f64 {
    f64::from_bits(s.to_bits())
}

fn ulps_eq(a: f64, b: f64) -> bool {
    if a == b || (a - b).abs() <= f64::EPSILON {
        return true;
    }
    if a.is_nan() || b.is_nan() || a.signum() != b.signum() {
        return false;
    }
    let (a, b) = (a.to_bits(), b.to_bits());
    (if a > b { a - b } else { b - a }) <= 4
}

fn material(color: &Rgb) -> Material {
    Material::new(
        *color,
        (scalar(1.0), scalar(1.0), scalar(1.0)),
        scalar(0.0),
        scalar(0.0),
        scalar(0.0),
    )
}

struct Ray {
    origin: Vector3<f64>,
    direction: Vector3<f64>,
}

impl Ray {
    fn new(origin: Vector3<f64>, direction: Vector3<f64>) -> Ray {
        Ray {
            origin,
            direction: direction.normalize(),
        }
    }

    fn extend(&self, distance: f64) -> Vector3<f64> {
        self.origin + (self.direction * distance)
    }
}

struct Intersect<'a> {
    distance: f64,
    point: Vector3<f64>,
    color: &'a Material,
}

struct Sphere {
    center: Vector3<f64>,
    r: f64,
    color: Material,
}

impl Sphere {
    fn new(center: Vector3<f64>, r: f64, color: Material) -> Sphere {
        Sphere { center, r, color }
    }

    fn intersect(&self, ray: &Ray) -> Option<Intersect<'_>> {
        let c_sub = ray.origin - self.center;
        let b = 2.0 * dot(ray.direction, c_sub);
        let c = dot(c_sub, c_sub) - (self.r * self.r);
        let discriminant = b * b - 4.0 * c;
        let root = discriminant.sqrt();
        let d1 = (-b + root) / 2.0;
        let d2 = (-b - root) / 2.0;
        let distance = number(sphere::intersect(
            scalar(discriminant),
            scalar(d1),
            scalar(d2),
        )?);
        Some(Intersect {
            distance,
            point: ray.extend(distance),
            color: &self.color,
        })
    }
}

struct Floor {
    bottom_left: Vector3<f64>,
    top_left: Vector3<f64>,
    top_right: Vector3<f64>,
    bottom_right: Vector3<f64>,
    normal: Vector3<f64>,
    f: f64,
    width: f64,
    height: f64,
    color1: Material,
    color2: Material,
}

impl Floor {
    fn new(
        bottom_left: Vector3<f64>,
        top_left: Vector3<f64>,
        top_right: Vector3<f64>,
        bottom_right: Vector3<f64>,
        color1: Material,
        color2: Material,
    ) -> Floor {
        let a = bottom_left - top_left;
        let b = bottom_left - bottom_right;
        let normal = Vector3 {
            x: a.y * b.z - a.z * b.y,
            y: a.z * b.x - a.x * b.z,
            z: a.x * b.y - a.y * b.x,
        }
        .normalize();
        Floor {
            bottom_left,
            top_left,
            top_right,
            bottom_right,
            normal,
            f: -dot(normal, bottom_left),
            width: (bottom_left - bottom_right).magnitude(),
            height: (bottom_left - top_left).magnitude(),
            color1,
            color2,
        }
    }

    fn translate(&self, translation: Vector3<f64>) -> Floor {
        Floor::new(
            self.bottom_left + translation,
            self.top_left + translation,
            self.top_right + translation,
            self.bottom_right + translation,
            self.color1,
            self.color2,
        )
    }

    fn rotate_x(&self, rotation: f64) -> Floor {
        Floor::new(
            rotate_x(self.bottom_left, rotation),
            rotate_x(self.top_left, rotation),
            rotate_x(self.top_right, rotation),
            rotate_x(self.bottom_right, rotation),
            self.color1,
            self.color2,
        )
    }

    fn cell(&self, point: &Vector3<f64>) -> (f64, f64) {
        let hyp = point - self.bottom_left;
        let hyp_length = hyp.magnitude();
        let angle = (self.bottom_right - self.bottom_left).angle(hyp);
        let x = angle.cos() * hyp_length;
        let y = angle.sin() * hyp_length;
        (x / (self.width / 7.0), y / (self.height / 7.0))
    }

    fn intersect(&self, ray: &Ray) -> Option<Intersect<'_>> {
        let distance =
            -(dot(self.normal, ray.origin) + self.f) / dot(self.normal, ray.direction);
        let point = ray.extend(distance);
        let extent = Extent {
            left: scalar(self.bottom_left.x),
            right: scalar(self.bottom_right.x),
            bottom: scalar(self.bottom_left.y),
            top: scalar(self.top_left.y),
        };
        if floor::intersect(&extent, scalar(distance), scalar(point.x), scalar(point.y)) {
            let (column, row) = self.cell(&point);
            Some(Intersect {
                distance,
                point,
                color: match floor::color_at(scalar(column), scalar(row)) {
                    Tile::First => &self.color1,
                    Tile::Second => &self.color2,
                },
            })
        } else {
            None
        }
    }
}

fn rotate_x(v: Vector3<f64>, rotation: f64) -> Vector3<f64> {
    let theta = rotation * (std::f64::consts::PI / 180.0);
    Vector3 {
        x: v.x,
        y: v.y * theta.cos() + v.z * -theta.sin(),
        z: v.y * theta.sin() + v.z * theta.cos(),
    }
}

// The nearest of the floors that the ray meets, none of them excluded but
// the one at `exclude`
fn nearest<'a>(r: &Ray, shapes: &[&'a Floor], exclude: Option<usize>) -> Option<Intersect<'a>> {
    let mut found: Vec<(usize, Intersect<'a>)> = shapes
        .iter()
        .enumerate()
        .filter_map(|(shape, floor)| floor.intersect(r).map(|hit| (shape, hit)))
        .collect();
    let hits: Vec<tracer::Intersect> = found
        .iter()
        .map(|(shape, hit)| tracer::Intersect {
            distance: scalar(hit.distance),
            shape: *shape,
        })
        .collect();
    let k = shape_intersect(&hits, exclude)?;
    Some(found.swap_remove(k).1)
}

fn unit_floor(z: f64, color: &Rgb) -> Floor {
    Floor::new(
        vec3(-1.0, -1.0, z),
        vec3(-1.0, 1.0, z),
        vec3(1.0, -1.0, z),
        vec3(1.0, 1.0, z),
        material(color),
        material(color),
    )
}

// Tests collisions with a simple floor that hasn't been rotated or
// translated
#[test]
fn floor_intersect() {
    let color = Rgb::new([255, 0, 0]);

    let floor = Floor::new(
        vec3(-1.0, -1.0, 1.0),
        vec3(-1.0, 1.0, 1.0),
        vec3(1.0, -1.0, 1.0),
        vec3(1.0, 1.0, 1.0),
        material(&color),
        material(&color),
    );

    let r = Ray::new(vec3(0.0, 0.0, 0.0), vec3(0.0, 0.0, 1.0));
    let intersect = floor
        .intersect(&r)
        .expect("Ray should intersect with floor");
    assert_eq!(&color, intersect.color.diffuse());
    assert!(ulps_eq(1.0, intersect.distance));

    let r = Ray::new(vec3(0.0, 0.0, 0.0), vec3(1.0, -1.0, 1.0));
    let intersect = floor
        .intersect(&r)
        .expect("Ray should intersect with floor at edge");
    assert_eq!(&color, intersect.color.diffuse());

    let r = Ray::new(vec3(0.0, 0.0, 0.0), vec3(1.0, 0.0, 0.0));
    let result = floor.intersect(&r);
    assert!(result.is_none());
}

// Tests collisions after translating the floor
#[test]
fn intersect_translated() {
    let color = Rgb::new([255, 0, 0]);

    let floor = Floor::new(
        vec3(-1.0, -1.0, 1.0),
        vec3(-1.0, 1.0, 1.0),
        vec3(1.0, -1.0, 1.0),
        vec3(1.0, 1.0, 1.0),
        material(&color),
        material(&color),
    );

    let floor = floor.translate(vec3(1.0, 2.0, 3.0));

    // Ray from origin, down Z axis
    let r = Ray::new(vec3(0.0, 0.0, 0.0), vec3(0.0, 0.0, 1.0));
    let result = floor.intersect(&r);
    assert!(result.is_none());

    // Ray toward floor, from new center
    let r = Ray::new(vec3(1.0, 2.0, 3.0), vec3(0.0, 0.0, 1.0));
    let intersect = floor
        .intersect(&r)
        .expect("Ray should intersect with floor");
    assert_eq!(&color, intersect.color.diffuse());
    assert!(ulps_eq(1.0, intersect.distance));

    // Ray from origin, toward new center
    let r = Ray::new(vec3(0.0, 0.0, 0.0), vec3(1.0, 2.0, 3.0));
    let intersect = floor
        .intersect(&r)
        .expect("Ray should intersect with floor");
    assert_eq!(&color, intersect.color.diffuse());
}

// Tests collisions after rotating the floor
#[test]
fn intersect_rotate_x() {
    let color = Rgb::new([255, 0, 0]);

    let floor = Floor::new(
        vec3(-1.0, -1.0, 1.0),
        vec3(-1.0, 1.0, 1.0),
        vec3(1.0, -1.0, 1.0),
        vec3(1.0, 1.0, 1.0),
        material(&color),
        material(&color),
    );

    let floor = floor.rotate_x(-90.0);

    // Ray from origin, down Z axis
    let r = Ray::new(vec3(0.0, 0.0, 0.0), vec3(0.0, 0.0, 1.0));
    let result = floor.intersect(&r);
    assert!(result.is_none());

    // Ray from origin, toward Y axis
    let r = Ray::new(vec3(0.0, 0.0, 0.0), vec3(0.0, 1.0, 0.0));
    let intersect = floor
        .intersect(&r)
        .expect("Ray should intersect with floor");
    assert_eq!(&color, intersect.color.diffuse());
    assert!(ulps_eq(1.0, intersect.distance));
}

// Tests collisions with a sphere, pointing at center
#[test]
fn sphere_intersect() {
    let color = Rgb::new([255, 255, 0]);

    let sphere = Sphere::new(vec3(0.0, 0.0, 1.0), 0.5, material(&color));

    let r = Ray::new(vec3(0.0, 0.0, 0.0), vec3(0.0, 0.0, 1.0));
    let intersect = sphere
        .intersect(&r)
        .expect("Ray should intersect with sphere");
    assert_eq!(&color, intersect.color.diffuse());
    assert!(ulps_eq(0.5, intersect.distance));
}

#[test]
fn intersect_tangent() {
    let color = Rgb::new([255, 255, 0]);

    let sphere = Sphere::new(vec3(0.0, 0.0, 1.0), 0.5, material(&color));

    let r = Ray::new(vec3(0.0, 0.5, 0.0), vec3(0.0, 0.0, 1.0));
    let intersect = sphere
        .intersect(&r)
        .expect("Ray should intersect with sphere at tangent");

    assert_eq!(&color, intersect.color.diffuse());
    assert!(ulps_eq(1.0, intersect.distance));
}

// Tests that the closest shape is selected
#[test]
fn intersect_ordering() {
    let color1 = Rgb::new([255, 0, 0]);
    let color2 = Rgb::new([0, 255, 0]);

    let f1 = unit_floor(1.0, &color1);
    let f2 = unit_floor(2.0, &color2);

    let shapes: Vec<&Floor> = vec![&f1, &f2];

    let r = Ray::new(vec3(0.0, 0.0, 0.0), vec3(0.0, 0.0, 1.0));

    let intersect = nearest(&r, &shapes, None).expect("Both of these objects should intersect");

    assert!(ulps_eq(1.0, intersect.distance));
}

// Tests that a shape is excluded if specified
#[test]
fn intersect_exclude() {
    let color1 = Rgb::new([255, 0, 0]);
    let color2 = Rgb::new([0, 255, 0]);

    let f1 = unit_floor(1.0, &color1);
    let f2 = unit_floor(2.0, &color2);

    let shapes: Vec<&Floor> = vec![&f1, &f2];

    let r = Ray::new(vec3(0.0, 0.0, 0.0), vec3(0.0, 0.0, 1.0));

    // Exclude a shape that already isn't closest
    let intersect = nearest(&r, &shapes, Some(1)).expect("f1 should intersect");
    assert!(ulps_eq(1.0, intersect.distance));

    // Exclude the closest shape
    let intersect = nearest(&r, &shapes, Some(0)).expect("f2 should intersect");
    assert!(ulps_eq(2.0, intersect.distance));

    // Exclude the only shape
    let shapes: Vec<&Floor> = vec![&f1];
    let intersect = nearest(&r, &shapes, Some(0));
    assert!(intersect.is_none());
}

// The order of the shapes does not decide which one is seen
#[test]
fn intersect_ordering_reversed() {
    let f1 = unit_floor(1.0, &Rgb::new([255, 0, 0]));
    let f2 = unit_floor(2.0, &Rgb::new([0, 255, 0]));
    let shapes: Vec<&Floor> = vec![&f2, &f1];
    let r = Ray::new(vec3(0.0, 0.0, 0.0), vec3(0.0, 0.0, 1.0));
    let intersect = nearest(&r, &shapes, None).expect("both floors are in the way");
    assert!(ulps_eq(1.0, intersect.distance));
    assert_eq!(&Rgb::new([255, 0, 0]), intersect.color.diffuse());
}

// A ray aimed at the center of a sphere from outside meets it at the distance
// to the center less the radius
#[test]
fn sphere_from_outside() {
    let sphere = Sphere::new(vec3(3.0, -4.0, 12.0), 2.5, material(&Rgb::white()));
    let r = Ray::new(vec3(0.0, 0.0, 0.0), vec3(3.0, -4.0, 12.0));
    let intersect = sphere.intersect(&r).expect("the ray is aimed at the center");
    assert!((intersect.distance - 10.5).abs() < 1e-9);
    assert!(((intersect.point - vec3(3.0, -4.0, 12.0)).magnitude() - 2.5).abs() < 1e-9);

    // from inside, the ray sees the far side
    let r = Ray::new(vec3(3.0, -4.0, 12.0), vec3(0.0, 1.0, 0.0));
    let intersect = sphere.intersect(&r).expect("the ray starts inside");
    assert!(ulps_eq(2.5, intersect.distance));

    // a sphere behind the ray is not seen
    let r = Ray::new(vec3(0.0, 0.0, 0.0), vec3(-3.0, 4.0, -12.0));
    assert!(sphere.intersect(&r).is_none());

    // nor one that the ray passes by
    let r = Ray::new(vec3(0.0, 0.0, 0.0), vec3(0.0, 1.0, 0.0));
    assert!(sphere.intersect(&r).is_none());
}

// A ray along the floor never meets it, and one that meets the plane just
// outside of a corner does not meet the floor
#[test]
fn floor_misses() {
    let floor = unit_floor(1.0, &Rgb::white());

    let r = Ray::new(vec3(0.0, 0.0, 0.0), vec3(0.0, 1.0, 0.0));
    assert!(floor.intersect(&r).is_none());
    let r = Ray::new(vec3(0.0, 0.0, 1.0), vec3(1.0, 1.0, 0.0));
    assert!(floor.intersect(&r).is_none());

    let r = Ray::new(vec3(0.0, 0.0, 0.0), vec3(1.001, -1.0, 1.0));
    assert!(floor.intersect(&r).is_none());
    let r = Ray::new(vec3(0.0, 0.0, 0.0), vec3(-1.0, 1.001, 1.0));
    assert!(floor.intersect(&r).is_none());
    let r = Ray::new(vec3(0.0, 0.0, 0.0), vec3(0.999, -0.999, 1.0));
    let intersect = floor.intersect(&r).expect("just inside of the corner");
    assert!((intersect.distance - (0.999f64 * 0.999 * 2.0 + 1.0).sqrt()).abs() < 1e-12);

    // the floor is not seen from behind the ray
    let r = Ray::new(vec3(0.0, 0.0, 0.0), vec3(0.0, 0.0, -1.0));
    assert!(floor.intersect(&r).is_none());
}

// Tiles of the checkerboard alternate along both axes
#[test]
fn floor_checkerboard() {
    let red = Rgb::new([255, 0, 0]);
    let yellow = Rgb::new([255, 255, 0]);
    // a floor of 7 by 7 tiles, each 1 by 1
    let floor = Floor::new(
        vec3(0.0, 0.0, 1.0),
        vec3(0.0, 7.0, 1.0),
        vec3(7.0, 7.0, 1.0),
        vec3(7.0, 0.0, 1.0),
        material(&red),
        material(&yellow),
    );
    let color_of = |x: f64, y: f64| {
        let r = Ray::new(vec3(x, y, 0.0), vec3(0.0, 0.0, 1.0));
        *floor
            .intersect(&r)
            .expect("the ray is aimed at the floor")
            .color
            .diffuse()
    };
    assert_eq!(red, color_of(0.5, 0.5));
    assert_eq!(yellow, color_of(1.5, 0.5));
    assert_eq!(red, color_of(2.5, 0.5));
    assert_eq!(yellow, color_of(0.5, 1.5));
    assert_eq!(red, color_of(1.5, 1.5));
    assert_eq!(red, color_of(4.5, 2.5));
    assert_eq!(yellow, color_of(4.5, 3.5));
    assert_eq!(red, color_of(6.5, 6.5));
    assert_eq!(red, color_of(6.5, 0.5));
}
