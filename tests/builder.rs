use rattler::builder::LockFileBuilder;
use rattler::environment::EnvironmentData;
use rattler::lock_data::{
    Channel, CondaPackageData, EnvironmentPackageData, Platform, PypiPackageData,
    PypiPackageEnvironmentData,
};
use rattler::lock_file::LockFile;

fn conda(name: &str, version: &str) -> CondaPackageData {
    CondaPackageData {
        name: name.to_string(),
        version: version.to_string(),
        build: "h123_0".to_string(),
        url: format!("https://conda.anaconda.org/conda-forge/linux-64/{}-{}-h123_0.conda", name, version),
    }
}

fn pypi(name: &str) -> PypiPackageData {
    PypiPackageData {
        name: name.to_string(),
        version: "1.0".to_string(),
        url: format!("https://files.pythonhosted.org/{}-1.0.tar.gz", name),
    }
}

fn extras(e: &[&str]) -> PypiPackageEnvironmentData {
    PypiPackageEnvironmentData { extras: e.iter().map(|s| s.to_string()).collect() }
}

fn packages<'a>(lf: &'a LockFile, env: &str, platform: &str) -> &'a Vec<EnvironmentPackageData> {
    let idx = lf.environment_index(env).unwrap();
    let data: &EnvironmentData = &lf.environments()[idx];
    &data.packages.iter().find(|(p, _)| p.name == platform).unwrap().1
}

#[test]
fn same_conda_package_twice_in_one_environment() {
    let mut b = LockFileBuilder::new();
    b.add_conda_package("default", Platform::new("linux-64"), conda("a", "1.0"));
    b.add_conda_package("default", Platform::new("linux-64"), conda("a", "1.0"));
    let lf = b.finish();
    assert_eq!(lf.conda_packages().len(), 1);
    let refs = packages(&lf, "default", "linux-64");
    assert_eq!(refs.len(), 2);
    assert_eq!(refs[0], EnvironmentPackageData::Conda(0));
    assert_eq!(refs[1], EnvironmentPackageData::Conda(0));
}

#[test]
fn same_conda_package_in_two_places_is_pooled() {
    let mut b = LockFileBuilder::new();
    b.add_conda_package("default", Platform::new("linux-64"), conda("b", "2.0"));
    b.add_conda_package("default", Platform::new("linux-64"), conda("a", "1.0"));
    b.add_conda_package("test", Platform::new("osx-arm64"), conda("a", "1.0"));
    let lf = b.finish();
    assert_eq!(lf.conda_packages().len(), 2);
    assert_eq!(lf.conda_packages()[0].name, "b");
    assert_eq!(lf.conda_packages()[1].name, "a");
    assert_eq!(packages(&lf, "default", "linux-64")[1], EnvironmentPackageData::Conda(1));
    assert_eq!(packages(&lf, "test", "osx-arm64")[0], EnvironmentPackageData::Conda(1));
}

#[test]
fn distinct_conda_packages_get_distinct_slots() {
    let mut b = LockFileBuilder::new();
    b.add_conda_package("default", Platform::new("linux-64"), conda("a", "1.0"));
    b.add_conda_package("default", Platform::new("linux-64"), conda("a", "1.1"));
    let lf = b.finish();
    assert_eq!(lf.conda_packages().len(), 2);
    let refs = packages(&lf, "default", "linux-64");
    assert_eq!(refs, &vec![EnvironmentPackageData::Conda(0), EnvironmentPackageData::Conda(1)]);
}

#[test]
fn extras_in_another_order_are_pooled_once() {
    let mut b = LockFileBuilder::new();
    b.add_pypi_package("default", Platform::new("linux-64"), pypi("x"), extras(&["a", "b"]));
    b.add_pypi_package("default", Platform::new("win-64"), pypi("y"), extras(&["b", "a"]));
    b.add_pypi_package("default", Platform::new("win-64"), pypi("x"), extras(&["c"]));
    let lf = b.finish();
    assert_eq!(lf.pypi_environment_package_datas().len(), 2);
    assert_eq!(lf.pypi_packages().len(), 2);
    assert_eq!(packages(&lf, "default", "linux-64")[0], EnvironmentPackageData::Pypi(0, 0));
    let win = packages(&lf, "default", "win-64");
    assert_eq!(win[0], EnvironmentPackageData::Pypi(1, 0));
    assert_eq!(win[1], EnvironmentPackageData::Pypi(0, 1));
    assert_eq!(lf.pypi_environment_package_datas()[1].extras, vec!["c".to_string()]);
}

#[test]
fn environment_order_is_kept() {
    let mut b = LockFileBuilder::new();
    b.set_channels("zeta", vec![Channel::new("conda-forge")]);
    b.add_conda_package("alpha", Platform::new("linux-64"), conda("a", "1.0"));
    b.set_channels("mid", vec![]);
    b.set_channels("zeta", vec![Channel::new("bioconda")]);
    let lf = b.finish();
    assert_eq!(lf.environment_index("zeta"), Some(0));
    assert_eq!(lf.environment_index("alpha"), Some(1));
    assert_eq!(lf.environment_index("mid"), Some(2));
    assert_eq!(lf.environment_index("none"), None);
    assert_eq!(lf.environments().len(), 3);
    assert_eq!(lf.environments()[0].channels.len(), 1);
    assert_eq!(lf.environments()[0].channels[0].url, "bioconda");
    assert!(lf.environments()[1].channels.is_empty());
}

#[test]
fn set_channels_keeps_packages() {
    let b = LockFileBuilder::new()
        .with_conda_package("default", Platform::new("linux-64"), conda("a", "1.0"))
        .with_channels("default", vec![Channel::new("conda-forge"), Channel::new("pytorch")])
        .with_pypi_package("default", Platform::new("linux-64"), pypi("x"), extras(&[]));
    let lf = b.finish();
    let refs = packages(&lf, "default", "linux-64");
    assert_eq!(refs, &vec![EnvironmentPackageData::Conda(0), EnvironmentPackageData::Pypi(0, 0)]);
    let env = &lf.environments()[0];
    assert_eq!(env.channels.len(), 2);
    assert_eq!(env.channels[1].url, "pytorch");
}

#[test]
fn empty_builder_finishes_empty() {
    let lf = LockFileBuilder::new().finish();
    assert!(lf.environments().is_empty());
    assert!(lf.conda_packages().is_empty());
    assert!(lf.pypi_packages().is_empty());
    assert!(lf.pypi_environment_package_datas().is_empty());
}
