use seat_booking::bus_model;
use seat_booking::bus_model::BusModel;
use seat_booking::show_bus_model::ShowBusModel;
use seat_booking::Database;

#[test]
fn none_test() {
    let database: Database = Database::default();

    assert_eq!(database.show_bus_model(bus_model::Id(0)), None);
}

#[test]
fn some_test() {
    let bus_model: BusModel = BusModel {
        id: bus_model::Id(0),
        name: String::default(),
        number_of_seats: 1,
    };
    let database: Database = Database {
        bus_models: vec![bus_model],
        ..Default::default()
    };
    assert_eq!(
        database.show_bus_model(bus_model::Id(0)),
        Some(BusModel {
            id: bus_model::Id(0),
            name: String::default(),
            number_of_seats: 1
        })
        .as_ref()
    );
}

#[test]
fn show_bus_model_finds_the_first_of_two() {
    let database: Database = Database {
        bus_models: vec![
            BusModel {
                id: bus_model::Id(7),
                name: "other".to_string(),
                number_of_seats: 3,
            },
            BusModel {
                id: bus_model::Id(4),
                name: "first".to_string(),
                number_of_seats: 1,
            },
            BusModel {
                id: bus_model::Id(4),
                name: "second".to_string(),
                number_of_seats: 2,
            },
        ],
        ..Default::default()
    };
    let found = database.show_bus_model(bus_model::Id(4)).unwrap();
    assert_eq!(found.name, "first");
    assert_eq!(found.number_of_seats, 1);
    assert_eq!(database.show_bus_model(bus_model::Id(5)), None);
}
