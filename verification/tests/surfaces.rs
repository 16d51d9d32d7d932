use std::cell::RefCell;
use std::collections::HashMap;
use zluda::error::CuError;
use zluda::surface::{
    describes_same_image, plain_sampling, AddressMode, FilterMode, Registry, ResourceDesc,
    ResourceType, Sampling, SurfaceReport, SurfaceTarget, PAGE_BYTES,
};

struct Gpu {
    pages: RefCell<HashMap<usize, [u8; PAGE_BYTES]>>,
    writes: RefCell<Vec<usize>>,
    reports: RefCell<Vec<String>>,
    released: RefCell<Vec<usize>>,
    read_only: bool,
    plain: Option<usize>,
}

fn page(image: u8, access: u8, sampler: u8) -> [u8; PAGE_BYTES] {
    let mut page = [image; PAGE_BYTES];
    page[14] = access;
    for byte in &mut page[32..48] {
        *byte = sampler ^ 0x55;
    }
    for byte in &mut page[48..] {
        *byte = sampler;
    }
    page
}

impl Gpu {
    fn new(pages: &[(usize, [u8; PAGE_BYTES])]) -> Gpu {
        Gpu {
            pages: RefCell::new(pages.iter().copied().collect()),
            writes: RefCell::new(Vec::new()),
            reports: RefCell::new(Vec::new()),
            released: RefCell::new(Vec::new()),
            read_only: false,
            plain: Some(900),
        }
    }

    fn read(&self, object: usize) -> Option<[u8; PAGE_BYTES]> {
        self.pages.borrow().get(&object).copied()
    }

    fn write(&self, object: usize, offset: usize, sampler: [u8; 16]) -> Result<(), i32> {
        self.writes.borrow_mut().push(object);
        if self.read_only {
            return Err(1);
        }
        let mut pages = self.pages.borrow_mut();
        pages.get_mut(&object).unwrap()[offset..offset + 16].copy_from_slice(&sampler);
        Ok(())
    }

    fn report(&self, report: SurfaceReport) {
        self.reports.borrow_mut().push(match report {
            SurfaceReport::TextureUnreadable { texture, array } => format!("texture {texture} {array}"),
            SurfaceReport::SurfaceUnreadable { object } => format!("surface {object}"),
            SurfaceReport::Disagreement { texture, object, array, texture_page, surface_page } => {
                assert!(!describes_same_image(&texture_page, &surface_page));
                format!("disagreement {texture} {object} {array}")
            }
            SurfaceReport::NotWritten { object, code } => format!("write {object} {code}"),
            SurfaceReport::NoPlainSampler { array } => format!("plain {array}"),
        });
    }

    fn sampler(&self, object: usize) -> u8 {
        self.pages.borrow()[&object][63]
    }

    fn create(&self, registry: &mut Registry, desc: Option<ResourceDesc>, object: usize) -> Result<usize, CuError> {
        registry.object_create(
            desc,
            |_| Ok(object),
            &|o| self.read(o),
            &|(), o, offset, sampler| ((), self.write(o, offset, sampler)),
            |_, sampling: Sampling| {
                assert_eq!(sampling.address_mode, [AddressMode::Clamp; 3]);
                assert_eq!(sampling.filter_mode, FilterMode::Point);
                self.plain
            },
            |texture| self.released.borrow_mut().push(texture),
            (),
            &|(), r| self.report(r),
        )
        .1
    }

    fn adopt(&self, registry: &Registry, array: usize, texture: usize) {
        registry.adopt_sampler(
            array,
            texture,
            &|o| self.read(o),
            &|(), o, offset, sampler| ((), self.write(o, offset, sampler)),
            (),
            &|(), r| self.report(r),
        )
    }
}

fn array(handle: u64) -> ResourceDesc {
    let mut words = [0u32; 32];
    words[0] = handle as u32;
    words[1] = (handle >> 32) as u32;
    words[5] = 77;
    ResourceDesc {
        res_type: ResourceType::Array,
        words,
        flags: 3,
    }
}

const TEXTURE: usize = 500;
const SURFACE: usize = 600;

fn gpu() -> Gpu {
    Gpu::new(&[
        (TEXTURE, page(1, 0xb0, 10)),
        (SURFACE, page(1, 0xbf, 20)),
        (900, page(1, 0xb0, 30)),
    ])
}

#[test]
fn same_images() {
    let a = page(1, 0xb0, 1);
    assert!(describes_same_image(&a, &page(1, 0xbf, 2)));
    assert!(!describes_same_image(&a, &page(1, 0xc0, 1)));
    for i in 0..PAGE_BYTES {
        let mut b = a;
        b[i] ^= 0x80;
        assert_eq!(describes_same_image(&a, &b), i >= 32);
    }
}

#[test]
fn texture_before_surface() {
    let gpu = gpu();
    let mut registry = Registry::new();
    registry.register_texture(7, TEXTURE);
    assert_eq!(gpu.create(&mut registry, Some(array(7)), SURFACE), Ok(SURFACE));
    assert_eq!(gpu.sampler(SURFACE), 10);
    assert_eq!(*gpu.writes.borrow(), vec![SURFACE]);
    assert!(gpu.released.borrow().is_empty());
}

#[test]
fn surface_before_texture() {
    let gpu = gpu();
    let mut registry = Registry::new();
    assert_eq!(gpu.create(&mut registry, Some(array(7)), SURFACE), Ok(SURFACE));
    assert_eq!(gpu.sampler(SURFACE), 30);
    assert_eq!(*gpu.released.borrow(), vec![900]);
    registry.register_texture(7, TEXTURE);
    gpu.adopt(&registry, 7, TEXTURE);
    assert_eq!(gpu.sampler(SURFACE), 10);
    let mut wanted = page(1, 0xbf, 20);
    wanted[48..].fill(10);
    assert_eq!(gpu.read(SURFACE), Some(wanted));
}

#[test]
fn other_arrays_and_destroyed_surfaces_are_left_alone() {
    let gpu = gpu();
    let mut registry = Registry::new();
    gpu.create(&mut registry, Some(array(8)), SURFACE).unwrap();
    gpu.writes.borrow_mut().clear();
    gpu.adopt(&registry, 7, TEXTURE);
    assert!(gpu.writes.borrow().is_empty());
    gpu.adopt(&registry, 8, 0);
    gpu.adopt(&registry, 0, TEXTURE);
    assert!(gpu.writes.borrow().is_empty());
    assert!(registry.has_surface_over(8));
    let r = registry.object_destroy(SURFACE, |left: &Registry, object| {
        assert_eq!(object, SURFACE);
        assert!(left.surfaces.is_empty() && left.surface_descs.is_empty());
        Err(CuError::Driver(2))
    });
    assert_eq!(r, Err(CuError::Driver(2)));
    assert!(!registry.has_surface_over(8));
    gpu.adopt(&registry, 8, TEXTURE);
    assert!(gpu.writes.borrow().is_empty());
    assert!(gpu.reports.borrow().is_empty());
}

#[test]
fn forgotten_textures_are_not_used() {
    let mut registry = Registry::new();
    registry.register_texture(0, 1);
    registry.register_texture(1, 0);
    registry.register_texture(7, 1);
    registry.register_texture(7, 2);
    registry.register_texture(8, 1);
    assert_eq!(registry.texture_over(7), Some(1));
    registry.unregister_texture(1);
    assert_eq!(registry.texture_over(7), Some(2));
    assert_eq!(registry.texture_over(8), None);
    assert_eq!(registry.texture_over(0), None);
}

#[test]
fn descriptions_are_given_back() {
    let gpu = gpu();
    let mut registry = Registry::new();
    assert_eq!(
        registry.object_get_resource_desc(SURFACE).err(),
        Some(CuError::InvalidValue)
    );
    let desc = array(0x1_0000_0007);
    assert_eq!(desc.handle(), 0x1_0000_0007);
    gpu.create(&mut registry, Some(desc), SURFACE).unwrap();
    let given = registry.object_get_resource_desc(SURFACE).ok().unwrap();
    assert_eq!(given.res_type, ResourceType::Array);
    assert_eq!(given.words, desc.words);
    assert_eq!(given.flags, 3);
    registry.object_destroy(SURFACE, |_: &Registry, _| Ok(())).unwrap();
    assert_eq!(
        registry.object_get_resource_desc(SURFACE).err(),
        Some(CuError::InvalidValue)
    );
}

#[test]
fn what_surfaces_are_made_over() {
    let gpu = gpu();
    let mut registry = Registry::new();
    assert_eq!(gpu.create(&mut registry, None, SURFACE), Err(CuError::InvalidValue));
    for res_type in [ResourceType::Linear, ResourceType::Pitch2D, ResourceType::Other(9)] {
        let desc = ResourceDesc { res_type, ..array(7) };
        assert_eq!(gpu.create(&mut registry, Some(desc), SURFACE), Err(CuError::NotSupported));
    }
    assert!(registry.surfaces.is_empty());
    let target = RefCell::new(None);
    let mipmapped = ResourceDesc { res_type: ResourceType::MipmappedArray, ..array(7) };
    let r = registry.object_create(
        Some(mipmapped),
        |t| {
            *target.borrow_mut() = Some(t);
            Err(CuError::Driver(3))
        },
        &|o| gpu.read(o),
        &|(), o, offset, sampler| ((), gpu.write(o, offset, sampler)),
        |_, _| None,
        |_| {},
        (),
        &|(), r| gpu.report(r),
    );
    assert_eq!(r.1, Err(CuError::Driver(3)));
    assert_eq!(target.into_inner(), Some(SurfaceTarget::MipmappedArray(7)));
    assert!(registry.surfaces.is_empty());
    assert_eq!(plain_sampling().mipmap_filter_mode, FilterMode::Point);
}

#[test]
fn failures_are_told() {
    let mut gpu = gpu();
    let mut registry = Registry::new();
    gpu.plain = None;
    gpu.create(&mut registry, Some(array(7)), SURFACE).unwrap();
    gpu.adopt(&registry, 7, 123);
    registry.surfaces.push((7, 601));
    gpu.adopt(&registry, 7, TEXTURE);
    gpu.pages.borrow_mut().insert(601, page(2, 0xbf, 0));
    gpu.adopt(&registry, 7, TEXTURE);
    gpu.read_only = true;
    gpu.adopt(&registry, 7, TEXTURE);
    assert_eq!(
        *gpu.reports.borrow(),
        vec![
            "plain 7",
            "texture 123 7",
            "surface 601",
            "disagreement 500 601 7",
            "write 600 1",
            "disagreement 500 601 7",
        ]
    );
    assert_eq!(gpu.sampler(SURFACE), 10);
}
