use labworks::order::{Amount, CustomerName, Order, OrderId};

#[test]
fn order_keeps_its_data_through_payment_and_shipping() {
    let amount = Amount(2499.99f64.to_bits());
    let order = Order::new(OrderId(1001), CustomerName("Ivan Petrenko".to_string()), amount);
    assert_eq!(order.id().0, 1001);
    let paid = order.pay();
    assert_eq!(paid.customer().0, "Ivan Petrenko");
    let shipped = paid.ship();
    assert_eq!(shipped.id().0, 1001);
    assert_eq!(shipped.customer().0, "Ivan Petrenko");
    assert_eq!(f64::from_bits(shipped.amount().0), 2499.99);
}
